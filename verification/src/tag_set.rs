//! The corpus-wide tag set.
//!
//! Tags from all posts are folded into one deduplicated set. It is kept as
//! a vector sorted strictly ascending by code point, so that deduplication
//! is structural and every reader (navigation, tag pages) sees the tags in
//! one deterministic, lexicographic order regardless of the order in which
//! parallel parse results were merged.

use vstd::prelude::*;
use crate::tag::Tag;
use crate::text::{
    chars_of, lex_lt, lex_lt_chars, lemma_lex_lt_asym, lemma_lex_lt_trichotomy,
};

verus! {

/// Strictly ascending lexicographic order: sorted and duplicate-free.
pub open spec fn strictly_sorted(s: Seq<Seq<char>>) -> bool {
    forall|i: int, j: int| 0 <= i < j < s.len() ==> #[trigger] lex_lt(s[i], s[j])
}

/// LAW (the merge is order-insensitive): a strictly sorted sequence is
/// determined by the set of its elements, so however the per-post tag
/// sets arrive at the merge, the frozen tag set — and with it every
/// navigation block and tag page — comes out the same.
pub proof fn lemma_sorted_set_unique(a: Seq<Seq<char>>, b: Seq<Seq<char>>)
    requires
        strictly_sorted(a),
        strictly_sorted(b),
        a.to_set() == b.to_set(),
    ensures
        a == b,
    decreases a.len(),
{
    if a.len() == 0 {
        if b.len() > 0 {
            assert(b.contains(b[0]));
            assert(a.to_set().contains(b[0]));
            let i = choose|i: int| 0 <= i < a.len() && a[i] == b[0];
            assert(false);
        }
        assert(a =~= b);
    } else {
        assert(a.contains(a[0]));
        assert(b.to_set().contains(a[0]));
        assert(b.contains(a[0]));
        assert(b.len() > 0);
        assert(b.contains(b[0]));
        assert(a.to_set().contains(b[0]));
        assert(a.contains(b[0]));
        let j = choose|j: int| 0 <= j < b.len() && b[j] == a[0];
        let i = choose|i: int| 0 <= i < a.len() && a[i] == b[0];
        if j > 0 && i > 0 {
            assert(lex_lt(b[0], b[j]));
            assert(lex_lt(a[0], a[i]));
            lemma_lex_lt_asym(a[0], b[0]);
        }
        assert(a[0] == b[0]);
        let at = a.drop_first();
        let bt = b.drop_first();
        assert forall|p: int, q: int| 0 <= p < q < at.len() implies #[trigger] lex_lt(
            at[p],
            at[q],
        ) by {
            assert(at[p] == a[p + 1] && at[q] == a[q + 1]);
        }
        assert forall|p: int, q: int| 0 <= p < q < bt.len() implies #[trigger] lex_lt(
            bt[p],
            bt[q],
        ) by {
            assert(bt[p] == b[p + 1] && bt[q] == b[q + 1]);
        }
        assert forall|x: Seq<char>| at.to_set().contains(x) implies bt.to_set().contains(x) by {
            let k = choose|k: int| 0 <= k < at.len() && at[k] == x;
            assert(a[k + 1] == x);
            assert(lex_lt(a[0], x));
            assert(a.contains(x));
            assert(b.to_set().contains(x));
            let m = choose|m: int| 0 <= m < b.len() && b[m] == x;
            if m == 0 {
                lemma_lex_lt_asym(a[0], a[0]);
            }
            assert(bt[m - 1] == x);
            assert(bt.contains(x));
        }
        assert forall|x: Seq<char>| bt.to_set().contains(x) implies at.to_set().contains(x) by {
            let k = choose|k: int| 0 <= k < bt.len() && bt[k] == x;
            assert(b[k + 1] == x);
            assert(lex_lt(b[0], x));
            assert(b.contains(x));
            assert(a.to_set().contains(x));
            let m = choose|m: int| 0 <= m < a.len() && a[m] == x;
            if m == 0 {
                lemma_lex_lt_asym(b[0], b[0]);
            }
            assert(at[m - 1] == x);
            assert(at.contains(x));
        }
        assert(at.to_set() =~= bt.to_set());
        lemma_sorted_set_unique(at, bt);
        assert forall|k: int| 0 <= k < a.len() implies a[k] == b[k] by {
            if k > 0 {
                assert(a[k] == at[k - 1] && b[k] == bt[k - 1]);
            }
        }
        assert(a =~= b);
    }
}

/// A deduplicated, lexicographically sorted set of validated tags.
#[derive(Debug, Clone)]
pub struct TagSet {
    tags: Vec<Tag>,
}

impl View for TagSet {
    type V = Seq<Seq<char>>;

    closed spec fn view(&self) -> Seq<Seq<char>> {
        self.tags@.map_values(|t: Tag| t@)
    }
}

impl TagSet {
    /// The set's ordering invariant.
    pub open spec fn wf(&self) -> bool {
        strictly_sorted(self@)
    }

    /// The empty tag set.
    pub fn new() -> (r: Self)
        ensures
            r@ =~= Seq::<Seq<char>>::empty(),
            r.wf(),
    {
        let r = TagSet { tags: Vec::new() };
        proof {
            assert(r@ =~= Seq::<Seq<char>>::empty());
        }
        r
    }

    /// How many distinct tags the set holds.
    pub fn len(&self) -> (r: usize)
        ensures
            r == self@.len(),
    {
        self.tags.len()
    }

    /// Whether the set holds `t`'s text.
    pub fn contains(&self, t: &Tag) -> (r: bool)
        ensures
            r == self@.contains(t@),
    {
        let n = self.tags.len();
        let mut i: usize = 0;
        while i < n
            invariant
                i <= n,
                n == self@.len(),
                forall|j: int| 0 <= j < i ==> self@[j] != t@,
            decreases n - i,
        {
            proof {
                assert(self@[i as int] == self.tags@[i as int]@);
            }
            if &self.tags[i] == t {
                proof {
                    assert(self@.contains(t@)) by {
                        assert(self@[i as int] == t@);
                    }
                }
                return true;
            }
            i += 1;
        }
        proof {
            if self@.contains(t@) {
                let j = choose|j: int| 0 <= j < self@.len() && self@[j] == t@;
                assert(self@[j] != t@);
            }
        }
        false
    }

    /// The tags in their sorted order, for iteration.
    pub fn as_vec(&self) -> (r: &Vec<Tag>)
        ensures
            r@.map_values(|t: Tag| t@) == self@,
    {
        &self.tags
    }

    /// Insert a tag: a no-op when its text is already present, otherwise
    /// the text joins the set at its sorted position.
    pub fn insert(&mut self, t: Tag)
        requires
            old(self).wf(),
        ensures
            final(self).wf(),
            old(self)@.contains(t@) ==> final(self)@ == old(self)@,
            !old(self)@.contains(t@) ==> final(self)@.to_set() =~= old(self)@.to_set().insert(t@)
                && final(self)@.len() == old(self)@.len() + 1,
    {
        let tv = chars_of(t.as_str());
        let n = self.tags.len();
        let mut j: usize = 0;
        while j < n && lex_lt_chars(&chars_of(self.tags[j].as_str()), &tv)
            invariant
                j <= n,
                n == self@.len(),
                tv@ == t@,
                self.wf(),
                forall|k: int| 0 <= k < j ==> lex_lt(#[trigger] self@[k], t@),
            decreases n - j,
        {
            proof {
                assert(self@[j as int] == self.tags@[j as int]@);
            }
            j += 1;
        }
        if j < n && &self.tags[j] == &t {
            proof {
                assert(self@[j as int] == self.tags@[j as int]@);
                assert(self@.contains(t@)) by {
                    assert(self@[j as int] == t@);
                }
            }
            return;
        }
        let ghost oldv = self@;
        self.tags.insert(j, t);
        proof {
            assert(self@ =~= oldv.insert(j as int, t@));
            let newv = self@;
            assert(!oldv.contains(t@)) by {
                if oldv.contains(t@) {
                    let k = choose|k: int| 0 <= k < oldv.len() && oldv[k] == t@;
                    if k < j {
                        assert(lex_lt(oldv[k], t@));
                        lemma_lex_lt_asym(t@, t@);
                    } else {
                        if j < n {
                            if k == j {
                                assert(oldv[j as int] != t@);
                            } else {
                                assert(lex_lt(oldv[j as int], oldv[k]));
                                lemma_lex_lt_trichotomy(oldv[j as int], t@);
                                assert(lex_lt(oldv[j as int], t@));
                                lemma_lex_lt_asym(oldv[j as int], t@);
                            }
                        }
                    }
                }
            }
            assert(strictly_sorted(newv)) by {
                if j < n {
                    assert(oldv[j as int] != t@);
                    lemma_lex_lt_trichotomy(oldv[j as int], t@);
                    assert(lex_lt(t@, oldv[j as int]));
                }
                assert forall|a: int, b: int| 0 <= a < b < newv.len() implies #[trigger] lex_lt(
                    newv[a],
                    newv[b],
                ) by {
                    let jj = j as int;
                    if a < jj && b < jj {
                        assert(newv[a] == oldv[a] && newv[b] == oldv[b]);
                    } else if a < jj && b == jj {
                        assert(newv[a] == oldv[a] && newv[b] == t@);
                    } else if a < jj && b > jj {
                        assert(newv[a] == oldv[a] && newv[b] == oldv[b - 1]);
                        assert(lex_lt(oldv[a], oldv[b - 1]));
                    } else if a == jj && b > jj {
                        assert(newv[a] == t@ && newv[b] == oldv[b - 1]);
                        assert(b - 1 >= jj);
                        if b - 1 == jj {
                            assert(lex_lt(t@, oldv[jj]));
                        } else {
                            assert(lex_lt(oldv[jj], oldv[b - 1]));
                            crate::text::lemma_lex_lt_trans(t@, oldv[jj], oldv[b - 1]);
                        }
                    } else {
                        assert(a > jj);
                        assert(newv[a] == oldv[a - 1] && newv[b] == oldv[b - 1]);
                        assert(lex_lt(oldv[a - 1], oldv[b - 1]));
                    }
                }
            }
            assert(newv.to_set() =~= oldv.to_set().insert(t@)) by {
                assert forall|x: Seq<char>| newv.to_set().contains(x) implies oldv.to_set().insert(
                    t@,
                ).contains(x) by {
                    let k = choose|k: int| 0 <= k < newv.len() && newv[k] == x;
                    if k < j {
                        assert(oldv[k] == x);
                        assert(oldv.contains(x));
                    } else if k == j {
                        assert(x == t@);
                    } else {
                        assert(oldv[k - 1] == x);
                        assert(oldv.contains(x));
                    }
                }
                assert forall|x: Seq<char>|
                    oldv.to_set().insert(t@).contains(x) implies newv.to_set().contains(x) by {
                    if x == t@ {
                        assert(newv[j as int] == x);
                        assert(newv.contains(x));
                    } else {
                        let k = choose|k: int| 0 <= k < oldv.len() && oldv[k] == x;
                        if k < j {
                            assert(newv[k] == x);
                        } else {
                            assert(newv[k + 1] == x);
                        }
                        assert(newv.contains(x));
                    }
                }
            }
        }
    }
}

} // verus!
