//! Image optimization planning: external-URL detection, destination
//! naming, and the mtime cache policy.
//!
//! The decode/resize/encode work itself is done by a raster-image library
//! outside this crate; everything it needs to decide — whether to touch the
//! filesystem at all, where the optimized file goes, and whether the cached
//! copy may be reused — is computed and verified here. Cache comparisons
//! use filesystem modification times only: a cache entry is stale but
//! undetected if source and destination share an identical mtime after an
//! out-of-band edit (a documented limitation of the policy).

use vstd::prelude::*;
use vstd::string::StringExecFns;
use crate::text::{chars_of, has_prefix, has_prefix_chars, string_of, subrange_chars};
use crate::error::BuildError;

verus! {

pub open spec fn http_prefix() -> Seq<char> {
    seq!['h', 't', 't', 'p', ':', '/', '/']
}

pub open spec fn https_prefix() -> Seq<char> {
    seq!['h', 't', 't', 'p', 's', ':', '/', '/']
}

/// An absolute external URL, which the optimizer passes through untouched.
pub open spec fn is_external_url(s: Seq<char>) -> bool {
    has_prefix(s, http_prefix()) || has_prefix(s, https_prefix())
}

/// Exec test for `is_external_url`.
pub fn is_external_str(s: &str) -> (r: bool)
    ensures
        r == is_external_url(s@),
{
    let cs = chars_of(s);
    let p1 = chars_of("http://");
    let p2 = chars_of("https://");
    proof {
        reveal_strlit("http://");
        reveal_strlit("https://");
        assert("http://"@ =~= http_prefix());
        assert("https://"@ =~= https_prefix());
    }
    let a = has_prefix_chars(&cs, &p1);
    let b = has_prefix_chars(&cs, &p2);
    a || b
}

/// Result of image optimization: where the usable image now lives and its
/// pixel dimensions. Width and height `0` are a sentinel meaning "unknown —
/// omit the dimension attributes", not a real pixel count.
#[derive(Debug, Clone)]
pub struct OptimizedImage {
    /// Relative path from the public root (e.g., `images/photo.webp`).
    pub rel_path: String,
    /// Image width in pixels (0 if unknown).
    pub width: u32,
    /// Image height in pixels (0 if unknown).
    pub height: u32,
}

impl OptimizedImage {
    /// Create for external URLs (no processing needed).
    pub fn external(url: &str) -> (r: Self)
        ensures
            r.rel_path@ == url@,
            r.width == 0u32,
            r.height == 0u32,
    {
        Self { rel_path: String::from_str(url), width: 0, height: 0 }
    }

    /// Create for missing/invalid images.
    pub fn missing(original_path: &str) -> (r: Self)
        ensures
            r.rel_path@ == original_path@,
            r.width == 0u32,
            r.height == 0u32,
    {
        Self { rel_path: String::from_str(original_path), width: 0, height: 0 }
    }

    /// Check if this is an external URL.
    pub fn is_external(&self) -> (r: bool)
        ensures
            r == is_external_url(self.rel_path@),
    {
        is_external_str(self.rel_path.as_str())
    }
}

/// Index just past the last occurrence of `c` (0 if `c` does not occur).
pub open spec fn after_last(s: Seq<char>, c: char) -> int
    decreases s.len(),
{
    if s.len() == 0 {
        0
    } else if s[s.len() - 1] == c {
        s.len() as int
    } else {
        after_last(s.drop_last(), c)
    }
}

pub proof fn lemma_after_last(s: Seq<char>, c: char)
    ensures
        0 <= after_last(s, c) <= s.len(),
        after_last(s, c) > 0 ==> s[after_last(s, c) - 1] == c,
        forall|j: int| after_last(s, c) <= j < s.len() ==> s[j] != c,
    decreases s.len(),
{
    if s.len() > 0 && s[s.len() - 1] != c {
        lemma_after_last(s.drop_last(), c);
        let a = after_last(s, c);
        if a > 0 {
            assert(s[a - 1] == s.drop_last()[a - 1]);
        }
        assert forall|j: int| a <= j < s.len() implies s[j] != c by {
            if j < s.len() - 1 {
                assert(s[j] == s.drop_last()[j]);
            }
        }
    }
}

/// The base name of a path: everything after the last `/`.
pub open spec fn base_name(path: Seq<char>) -> Seq<char> {
    path.subrange(after_last(path, '/'), path.len() as int)
}

/// The file stem of a base name, as `Path::file_stem` computes it: the
/// whole name when it holds no `.` past its first character, otherwise the
/// part before the final `.`.
pub open spec fn stem_of(base: Seq<char>) -> Seq<char> {
    let d = after_last(base, '.');
    if d <= 1 {
        base
    } else {
        base.subrange(0, d - 1)
    }
}

/// The file stem of the source path.
pub open spec fn src_stem(path: Seq<char>) -> Seq<char> {
    stem_of(base_name(path))
}

/// Where the optimized copy of `src` lives, relative to the public root:
/// `images/<stem>.webp`.
pub open spec fn dest_rel_path(src: Seq<char>) -> Seq<char> {
    "images/"@ + src_stem(src) + ".webp"@
}

/// Exec scan for `after_last`.
pub fn after_last_at(v: &Vec<char>, c: char) -> (r: usize)
    ensures
        r == after_last(v@, c),
{
    proof {
        lemma_after_last(v@, c);
    }
    let n = v.len();
    let mut i: usize = n;
    while i > 0
        invariant
            i <= n,
            n == v@.len(),
            forall|j: int| i <= j < n ==> v@[j] != c,
            0 <= after_last(v@, c) <= n,
            after_last(v@, c) > 0 ==> v@[after_last(v@, c) - 1] == c,
            forall|j: int| after_last(v@, c) <= j < n ==> v@[j] != c,
        decreases i,
    {
        if v[i - 1] == c {
            proof {
                let a = after_last(v@, c);
                if a < i {
                    assert(v@[i - 1] != c);
                }
                if i < a {
                    assert(v@[a - 1] != c);
                }
            }
            return i;
        }
        i -= 1;
    }
    proof {
        let a = after_last(v@, c);
        if a > 0 {
            assert(v@[a - 1] != c);
        }
    }
    0
}

/// Compute the file stem of a source path, as characters.
pub fn src_stem_chars(src: &str) -> (r: Vec<char>)
    ensures
        r@ == src_stem(src@),
{
    let cs = chars_of(src);
    let b = after_last_at(&cs, '/');
    proof {
        lemma_after_last(cs@, '/');
    }
    let base = subrange_chars(&cs, b, cs.len());
    let d = after_last_at(&base, '.');
    proof {
        lemma_after_last(base@, '.');
    }
    if d <= 1 {
        base
    } else {
        let r = subrange_chars(&base, 0, d - 1);
        r
    }
}

/// The destination relative path for `src`, or an internal error when the
/// path has no usable base name.
pub fn dest_rel_path_for(src: &str) -> (r: Result<String, BuildError>)
    ensures
        src_stem(src@).len() > 0 ==> (r matches Ok(p) && p@ == dest_rel_path(src@)),
        src_stem(src@).len() == 0 ==> r is Err,
        r matches Err(e) ==> e is Internal,
{
    let stem = src_stem_chars(src);
    if stem.len() == 0 {
        let mut msg = String::from_str("invalid image filename: ");
        msg.append(src);
        return Err(BuildError::Internal(msg));
    }
    let mut p = String::from_str("images/");
    p.append(string_of(&stem).as_str());
    p.append(".webp");
    proof {
        assert(p@ == "images/"@ + src_stem(src@) + ".webp"@);
    }
    Ok(p)
}

/// The cache policy: the cached destination may be reused exactly when it
/// exists, both modification times could be read, and the destination is at
/// least as new as the source.
pub open spec fn spec_cache_hit(
    dest_exists: bool,
    src_mtime: Option<i64>,
    dest_mtime: Option<i64>,
) -> bool {
    &&& dest_exists
    &&& src_mtime is Some
    &&& dest_mtime is Some
    &&& dest_mtime->0 >= src_mtime->0
}

/// What the optimizer decides to do for one image source.
#[derive(Debug, Clone, Copy, PartialEq, Eq, Structural)]
pub enum ImageAction {
    /// External URL: pass it through unchanged, touch nothing.
    External,
    /// The source file does not exist: degrade to the original path.
    Missing,
    /// The source path has no usable base name (an internal error).
    Invalid,
    /// Reuse the cached destination; only its header is read.
    ReadCached,
    /// Decode the source, resize if wider than the ceiling, encode anew.
    Reencode,
}

/// The optimizer's decision, as a function of the source path and the
/// observed filesystem facts.
pub open spec fn optimize_action(
    src: Seq<char>,
    src_exists: bool,
    dest_exists: bool,
    src_mtime: Option<i64>,
    dest_mtime: Option<i64>,
) -> ImageAction {
    if is_external_url(src) {
        ImageAction::External
    } else if !src_exists {
        ImageAction::Missing
    } else if src_stem(src).len() == 0 {
        ImageAction::Invalid
    } else if spec_cache_hit(dest_exists, src_mtime, dest_mtime) {
        ImageAction::ReadCached
    } else {
        ImageAction::Reencode
    }
}

/// Decide what to do for one image source. The caller reports the
/// filesystem facts (existence and modification times, `None` where
/// metadata could not be read); the decision follows `optimize_action`.
pub fn plan_optimize(
    src: &str,
    src_exists: bool,
    dest_exists: bool,
    src_mtime: Option<i64>,
    dest_mtime: Option<i64>,
) -> (r: ImageAction)
    ensures
        r == optimize_action(src@, src_exists, dest_exists, src_mtime, dest_mtime),
{
    if is_external_str(src) {
        return ImageAction::External;
    }
    if !src_exists {
        return ImageAction::Missing;
    }
    let stem = src_stem_chars(src);
    if stem.len() == 0 {
        return ImageAction::Invalid;
    }
    if dest_exists {
        if let (Some(s), Some(d)) = (src_mtime, dest_mtime) {
            if d >= s {
                return ImageAction::ReadCached;
            }
        }
    }
    ImageAction::Reencode
}

/// Dimensions read back from a cached destination: a failed header read
/// degrades to the unknown sentinel rather than failing the post.
pub fn cached_image_result(rel_path: String, dims: Option<(u32, u32)>) -> (r: OptimizedImage)
    ensures
        r.rel_path@ == rel_path@,
        dims matches Some(d) ==> r.width == d.0 && r.height == d.1,
        dims is None ==> r.width == 0u32 && r.height == 0u32,
{
    match dims {
        Some(d) => OptimizedImage { rel_path, width: d.0, height: d.1 },
        None => OptimizedImage { rel_path, width: 0, height: 0 },
    }
}

/// Whether the decoded image must be resized before encoding: only when
/// its width exceeds the ceiling (height is never the anchor).
pub fn needs_resize(width: u32, max_width: u32) -> (r: bool)
    ensures
        r == (width > max_width),
{
    width > max_width
}

/// LAW (image cache idempotence): once a build has encoded an image and
/// written its destination, a second build over an unchanged source — the
/// destination exists and is at least as new as the source — decides to
/// read the cache and never re-encodes.
pub proof fn lemma_cache_idempotence(src: Seq<char>, src_mtime: i64, dest_mtime: i64)
    requires
        !is_external_url(src),
        src_stem(src).len() > 0,
        dest_mtime >= src_mtime,
    ensures
        optimize_action(src, true, true, Some(src_mtime), Some(dest_mtime))
            == ImageAction::ReadCached,
{
}

} // verus!
