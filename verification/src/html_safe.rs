//! HTML-safe string wrapper that prevents unescaped user content from
//! reaching the generated pages.
//!
//! An `HtmlSafe` value can only be created by escaping a raw string, or by
//! the explicitly-named trusted constructor reserved for programmatically
//! built fragments. The escaping transform is specified character by
//! character, and the module proves the two laws the wrapper rests on:
//! escaped output never contains a raw special character (every `&` starts
//! an entity), and escaping a string without special characters is the
//! identity.

use vstd::prelude::*;
use vstd::string::StringExecFns;
use crate::text::chars_of;

verus! {

/// The replacement for `&`.
pub open spec fn amp_entity() -> Seq<char> {
    seq!['&', 'a', 'm', 'p', ';']
}

/// The replacement for `<`.
pub open spec fn lt_entity() -> Seq<char> {
    seq!['&', 'l', 't', ';']
}

/// The replacement for `>`.
pub open spec fn gt_entity() -> Seq<char> {
    seq!['&', 'g', 't', ';']
}

/// The replacement for `"`.
pub open spec fn quot_entity() -> Seq<char> {
    seq!['&', 'q', 'u', 'o', 't', ';']
}

/// The replacement for `'`.
pub open spec fn apos_entity() -> Seq<char> {
    seq!['&', '#', 'x', '2', '7', ';']
}

/// The five HTML metacharacters that the escaping transform replaces.
pub open spec fn is_html_special(c: char) -> bool {
    c == '&' || c == '<' || c == '>' || c == '"' || c == '\''
}

/// What one character escapes to.
pub open spec fn escape_char(c: char) -> Seq<char> {
    if c == '&' {
        amp_entity()
    } else if c == '<' {
        lt_entity()
    } else if c == '>' {
        gt_entity()
    } else if c == '"' {
        quot_entity()
    } else if c == '\'' {
        apos_entity()
    } else {
        seq![c]
    }
}

/// The escaping transform, character by character.
pub open spec fn escape_seq(s: Seq<char>) -> Seq<char>
    decreases s.len(),
{
    if s.len() == 0 {
        Seq::empty()
    } else {
        escape_char(s[0]) + escape_seq(s.drop_first())
    }
}

/// Escaping distributes over appending one character at the end.
pub proof fn lemma_escape_seq_push(s: Seq<char>, c: char)
    ensures
        escape_seq(s.push(c)) == escape_seq(s) + escape_char(c),
    decreases s.len(),
{
    if s.len() == 0 {
        assert(s.push(c)[0] == c);
        assert(s.push(c).drop_first() =~= Seq::<char>::empty());
        assert(escape_seq(s.push(c)) == escape_char(c) + escape_seq(Seq::<char>::empty()));
        assert(escape_char(c) + Seq::<char>::empty() =~= escape_char(c));
        assert(escape_seq(s) + escape_char(c) =~= escape_char(c));
    } else {
        assert(s.push(c)[0] == s[0]);
        assert(s.push(c).drop_first() =~= s.drop_first().push(c));
        lemma_escape_seq_push(s.drop_first(), c);
        assert(escape_char(s.push(c)[0]) == escape_char(s[0]));
        assert(escape_char(s[0]) + (escape_seq(s.drop_first()) + escape_char(c)) =~= (escape_char(
            s[0],
        ) + escape_seq(s.drop_first())) + escape_char(c));
    }
}

/// A character that may never appear raw in escaped output.
pub open spec fn is_raw_special_output(c: char) -> bool {
    c == '<' || c == '>' || c == '"' || c == '\''
}

/// One of the five entities begins at position `i` of `t`.
pub open spec fn entity_at(t: Seq<char>, i: int) -> bool {
    ||| (i + 5 <= t.len() && t.subrange(i, i + 5) == amp_entity())
    ||| (i + 4 <= t.len() && t.subrange(i, i + 4) == lt_entity())
    ||| (i + 4 <= t.len() && t.subrange(i, i + 4) == gt_entity())
    ||| (i + 6 <= t.len() && t.subrange(i, i + 6) == quot_entity())
    ||| (i + 6 <= t.len() && t.subrange(i, i + 6) == apos_entity())
}

/// `t` contains no raw `< > " '` at all, and every `&` in it starts an entity.
pub open spec fn well_escaped(t: Seq<char>) -> bool {
    &&& forall|i: int| 0 <= i < t.len() ==> !is_raw_special_output(#[trigger] t[i])
    &&& forall|i: int| 0 <= i < t.len() && #[trigger] t[i] == '&' ==> entity_at(t, i)
}

proof fn lemma_entity_at_shift(b: Seq<char>, t: Seq<char>, j: int)
    requires
        0 <= j,
        entity_at(t, j),
    ensures
        entity_at(b + t, b.len() + j),
{
    let u = b + t;
    let n = b.len() as int;
    if j + 5 <= t.len() && t.subrange(j, j + 5) == amp_entity() {
        assert(u.subrange(n + j, n + j + 5) =~= t.subrange(j, j + 5));
    }
    if j + 4 <= t.len() && t.subrange(j, j + 4) == lt_entity() {
        assert(u.subrange(n + j, n + j + 4) =~= t.subrange(j, j + 4));
    }
    if j + 4 <= t.len() && t.subrange(j, j + 4) == gt_entity() {
        assert(u.subrange(n + j, n + j + 4) =~= t.subrange(j, j + 4));
    }
    if j + 6 <= t.len() && t.subrange(j, j + 6) == quot_entity() {
        assert(u.subrange(n + j, n + j + 6) =~= t.subrange(j, j + 6));
    }
    if j + 6 <= t.len() && t.subrange(j, j + 6) == apos_entity() {
        assert(u.subrange(n + j, n + j + 6) =~= t.subrange(j, j + 6));
    }
}

/// LAW (escaping safety): for every input string, the escaped output
/// contains no raw `< > " '`, and every `&` in it begins one of the five
/// entities — there is no unescaped instance of the five metacharacters.
pub proof fn lemma_escape_well_escaped(s: Seq<char>)
    ensures
        well_escaped(escape_seq(s)),
    decreases s.len(),
{
    if s.len() == 0 {
    } else {
        let b = escape_char(s[0]);
        let rest = escape_seq(s.drop_first());
        let t = escape_seq(s);
        lemma_escape_well_escaped(s.drop_first());
        assert(t == b + rest);
        let n = b.len() as int;
        if is_html_special(s[0]) {
            assert(entity_at(t, 0)) by {
                assert(t.subrange(0, n) =~= b);
            }
        }
        assert forall|i: int| 0 <= i < t.len() implies !is_raw_special_output(#[trigger] t[i]) by {
            if i < n {
                assert(t[i] == b[i]);
            } else {
                assert(t[i] == rest[i - n]);
            }
        }
        assert forall|i: int| 0 <= i < t.len() && #[trigger] t[i] == '&' implies entity_at(t, i) by {
            if i < n {
                assert(t[i] == b[i]);
                if is_html_special(s[0]) {
                    assert(i == 0);
                } else {
                    assert(b =~= seq![s[0]]);
                    assert(t[i] != '&');
                }
            } else {
                assert(t[i] == rest[i - n]);
                assert(entity_at(rest, i - n));
                lemma_entity_at_shift(b, rest, i - n);
            }
        }
    }
}

/// LAW (escaping is the identity on safe input): a string containing none
/// of the five metacharacters escapes to itself.
pub proof fn lemma_escape_identity(s: Seq<char>)
    requires
        forall|i: int| 0 <= i < s.len() ==> !is_html_special(#[trigger] s[i]),
    ensures
        escape_seq(s) == s,
    decreases s.len(),
{
    if s.len() == 0 {
        assert(escape_seq(s) =~= s);
    } else {
        assert(!is_html_special(s[0]));
        assert(forall|i: int|
            0 <= i < s.drop_first().len() ==> !is_html_special(#[trigger] s.drop_first()[i]));
        lemma_escape_identity(s.drop_first());
        assert(escape_seq(s) =~= seq![s[0]] + s.drop_first());
        assert(seq![s[0]] + s.drop_first() =~= s);
    }
}

/// A string that has been escaped and is safe to embed in HTML.
///
/// Constructible only through `escape`, or through `from_trusted` for
/// programmatically built fragments that are known to be escaped already.
#[derive(Debug, Clone, PartialEq, Eq)]
pub struct HtmlSafe(String);

impl View for HtmlSafe {
    type V = Seq<char>;

    closed spec fn view(&self) -> Seq<char> {
        self.0@
    }
}

impl HtmlSafe {
    /// Escape a raw string, making it safe for HTML embedding.
    ///
    /// Escapes `&` `<` `>` `"` `'`; every other character passes through
    /// unchanged. Not idempotent: escaping escaped text double-escapes `&`,
    /// so callers escape exactly once, where untrusted text is produced.
    pub fn escape(raw: &str) -> (r: HtmlSafe)
        ensures
            r@ == escape_seq(raw@),
    {
        let cs = chars_of(raw);
        let mut out = String::new();
        let mut i: usize = 0;
        proof {
            assert(raw@.subrange(0, 0) =~= Seq::<char>::empty());
        }
        while i < cs.len()
            invariant
                cs@ == raw@,
                i <= raw@.len(),
                out@ == escape_seq(raw@.subrange(0, i as int)),
            decreases raw@.len() - i,
        {
            let c = cs[i];
            if c == '&' {
                out.append("&amp;");
            } else if c == '<' {
                out.append("&lt;");
            } else if c == '>' {
                out.append("&gt;");
            } else if c == '"' {
                out.append("&quot;");
            } else if c == '\'' {
                out.append("&#x27;");
            } else {
                out.push(c);
            }
            proof {
                reveal_strlit("&amp;");
                reveal_strlit("&lt;");
                reveal_strlit("&gt;");
                reveal_strlit("&quot;");
                reveal_strlit("&#x27;");
                assert("&amp;"@ =~= amp_entity());
                assert("&lt;"@ =~= lt_entity());
                assert("&gt;"@ =~= gt_entity());
                assert("&quot;"@ =~= quot_entity());
                assert("&#x27;"@ =~= apos_entity());
                lemma_escape_seq_push(raw@.subrange(0, i as int), c);
                assert(raw@.subrange(0, i + 1) =~= raw@.subrange(0, i as int).push(raw@[i as int]));
            }
            i += 1;
        }
        proof {
            assert(raw@.subrange(0, raw@.len() as int) =~= raw@);
        }
        HtmlSafe(out)
    }

    /// Create from a string that is already known to be escaped.
    ///
    /// The caller guarantees the string contains no unescaped HTML; this is
    /// reserved for literal template fragments and programmatically built
    /// content, never raw user input.
    pub fn from_trusted(s: &str) -> (r: HtmlSafe)
        ensures
            r@ == s@,
    {
        HtmlSafe(String::from_str(s))
    }

    /// Get the escaped string for embedding in HTML.
    pub fn as_str(&self) -> (r: &str)
        ensures
            r@ == self@,
    {
        self.0.as_str()
    }

    /// Check if the escaped content is empty.
    pub fn is_empty(&self) -> (r: bool)
        ensures
            r == (self@.len() == 0),
    {
        self.0.as_str().is_empty()
    }
}

/// Extension trait for convenient escaping.
pub trait EscapeHtml: View<V = Seq<char>> {
    /// Escape `self`, making it safe for HTML embedding.
    fn escape_html(&self) -> (r: HtmlSafe)
        ensures
            r@ == escape_seq(self@),
    ;
}

impl EscapeHtml for str {
    fn escape_html(&self) -> (r: HtmlSafe) {
        HtmlSafe::escape(self)
    }
}

impl EscapeHtml for String {
    fn escape_html(&self) -> (r: HtmlSafe) {
        HtmlSafe::escape(self.as_str())
    }
}

} // verus!
