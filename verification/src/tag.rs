//! Validated tag type.
//!
//! A `Tag` can only be constructed via `Tag::new`, which trims the input
//! and enforces the invariants: non-empty, at most `TAG_MAX_LEN` characters,
//! none of the HTML-unsafe characters `< > & " ' /`. A validated tag is
//! therefore safe to embed in HTML without escaping. Identity is
//! case-sensitive; the case-folded form is only used to derive URLs and
//! file names.

use vstd::prelude::*;
use crate::error::{BuildError, InvalidTagReason};
use crate::text::{chars_of, str_to_string, trim_chars, trim_spec, string_of};

verus! {

/// Maximum allowed tag length, in characters, after trimming.
pub const TAG_MAX_LEN: usize = 50;

/// Characters not allowed in tags (HTML-unsafe).
pub open spec fn is_forbidden_tag_char(c: char) -> bool {
    c == '<' || c == '>' || c == '&' || c == '"' || c == '\'' || c == '/'
}

/// Some character of `s` is forbidden in a tag.
pub open spec fn has_forbidden_tag_char(s: Seq<char>) -> bool {
    exists|i: int| 0 <= i < s.len() && is_forbidden_tag_char(#[trigger] s[i])
}

/// The invariant every constructed `Tag` satisfies: trimmed, non-empty,
/// bounded, and free of HTML-unsafe characters.
pub open spec fn valid_tag_chars(s: Seq<char>) -> bool {
    &&& s.len() > 0
    &&& s.len() <= TAG_MAX_LEN
    &&& !has_forbidden_tag_char(s)
    &&& s == trim_spec(s)
}

/// The result of `str::to_lowercase`, named: it depends on the characters
/// of the input alone.
pub uninterp spec fn lower_of(s: Seq<char>) -> Seq<char>;

/// Relies on `str::to_lowercase`: the Unicode lowercase mapping of the
/// string, a function of its characters alone.
#[verifier::external_body]
fn lowercase_str(s: &str) -> (r: String)
    ensures
        r@ == lower_of(s@),
{
    s.to_lowercase()
}

/// A validated tag that is safe to use in HTML.
#[derive(Debug, Clone)]
pub struct Tag(String);

impl View for Tag {
    type V = Seq<char>;

    closed spec fn view(&self) -> Seq<char> {
        self.0@
    }
}

impl PartialEq for Tag {
    fn eq(&self, other: &Tag) -> (r: bool) {
        self.0 == other.0
    }
}

impl vstd::std_specs::cmp::PartialEqSpecImpl for Tag {
    open spec fn obeys_eq_spec() -> bool {
        true
    }

    open spec fn eq_spec(&self, other: &Tag) -> bool {
        self@ == other@
    }
}

fn exec_is_forbidden_tag_char(c: char) -> (r: bool)
    ensures
        r == is_forbidden_tag_char(c),
{
    c == '<' || c == '>' || c == '&' || c == '"' || c == '\'' || c == '/'
}

impl Tag {
    /// Every constructed tag satisfies the tag invariant.
    pub open spec fn wf(&self) -> bool {
        valid_tag_chars(self@)
    }

    /// Attempt to create a validated `Tag` from raw input.
    ///
    /// The input is trimmed first. Failure reasons, in order of precedence:
    /// `Empty` if nothing remains, otherwise `ForbiddenChars` if any of
    /// `< > & " ' /` remains (even if the tag is also too long), otherwise
    /// `TooLong` past `TAG_MAX_LEN` characters.
    pub fn new(raw: &str) -> (r: Result<Tag, BuildError>)
        ensures
            ({
                let t = trim_spec(raw@);
                &&& t.len() == 0 ==> (r matches Err(e) && (e matches BuildError::InvalidTag {
                    tag,
                    reason,
                } && tag@ == raw@ && reason == InvalidTagReason::Empty))
                &&& t.len() > 0 && has_forbidden_tag_char(t) ==> (r matches Err(e) && (
                e matches BuildError::InvalidTag { tag, reason } && tag@ == raw@ && reason
                    == InvalidTagReason::ForbiddenChars))
                &&& t.len() > 0 && !has_forbidden_tag_char(t) && t.len() > TAG_MAX_LEN ==> (
                r matches Err(e) && (e matches BuildError::InvalidTag { tag, reason } && tag@
                    == raw@ && reason == InvalidTagReason::TooLong))
                &&& t.len() > 0 && !has_forbidden_tag_char(t) && t.len() <= TAG_MAX_LEN ==> (
                r matches Ok(tag) && tag@ == t && tag.wf())
            }),
    {
        let cs = chars_of(raw);
        let trimmed = trim_chars(&cs);
        if trimmed.len() == 0 {
            return Err(BuildError::InvalidTag {
                tag: str_to_string(raw),
                reason: InvalidTagReason::Empty,
            });
        }
        let mut i: usize = 0;
        let n = trimmed.len();
        while i < n
            invariant
                i <= n,
                n == trimmed@.len(),
                trimmed@ == trim_spec(raw@),
                trimmed@.len() > 0,
                forall|j: int| 0 <= j < i ==> !is_forbidden_tag_char(#[trigger] trimmed@[j]),
            decreases n - i,
        {
            if exec_is_forbidden_tag_char(trimmed[i]) {
                proof {
                    assert(is_forbidden_tag_char(trimmed@[i as int]));
                }
                return Err(BuildError::InvalidTag {
                    tag: str_to_string(raw),
                    reason: InvalidTagReason::ForbiddenChars,
                });
            }
            i += 1;
        }
        if trimmed.len() > TAG_MAX_LEN {
            return Err(BuildError::InvalidTag {
                tag: str_to_string(raw),
                reason: InvalidTagReason::TooLong,
            });
        }
        proof {
            lemma_trim_idempotent(cs@);
        }
        Ok(Tag(string_of(&trimmed)))
    }

    /// Get the validated tag as a string slice.
    /// Safe to use directly in HTML without escaping.
    pub fn as_str(&self) -> (r: &str)
        ensures
            r@ == self@,
    {
        self.0.as_str()
    }

    /// An equal copy of the tag.
    pub fn duplicate(&self) -> (r: Tag)
        ensures
            r@ == self@,
            self.wf() ==> r.wf(),
    {
        Tag(self.0.clone())
    }

    /// Convert to lowercase for URL/filename use.
    pub fn to_lowercase(&self) -> (r: String)
        ensures
            r@ == lower_of(self@),
    {
        lowercase_str(self.0.as_str())
    }
}

/// LAW (validated tags are inert in HTML): the text of a valid tag
/// escapes to itself, so embedding it raw in a template adds nothing that
/// escaping would have changed. Every character the escaper rewrites is
/// also forbidden in tags.
pub proof fn lemma_valid_tag_escapes_to_itself(s: Seq<char>)
    requires
        valid_tag_chars(s),
    ensures
        crate::html_safe::escape_seq(s) == s,
{
    assert forall|i: int| 0 <= i < s.len() implies !crate::html_safe::is_html_special(
        #[trigger] s[i],
    ) by {
        if crate::html_safe::is_html_special(s[i]) {
            assert(is_forbidden_tag_char(s[i]));
            assert(has_forbidden_tag_char(s));
        }
    }
    crate::html_safe::lemma_escape_identity(s);
}

/// Trimming is idempotent.
pub proof fn lemma_trim_idempotent(s: Seq<char>)
    ensures
        trim_spec(trim_spec(s)) == trim_spec(s),
{
    let u = crate::text::trim_front_spec(s);
    let t = trim_spec(s);
    crate::text::lemma_trim_front_ends(s);
    crate::text::lemma_trim_back_ends(u);
    crate::text::lemma_trim_back_prefix(u);
    if t.len() > 0 {
        assert(t[0] == u[0]);
    }
    crate::text::lemma_trim_front_noop(t);
    crate::text::lemma_trim_back_noop(t);
}

} // verus!
