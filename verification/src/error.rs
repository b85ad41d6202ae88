//! Error taxonomy with semantic recovery classes, and the aggregation of
//! per-item outcomes into one build summary.
//!
//! Three severities: recoverable (skip the one item, keep building), fatal
//! (abort the whole build), and internal (a logic defect, surfaced like a
//! fatal error).

use vstd::prelude::*;
use vstd::string::StringExecFns;

verus! {

/// Why a tag was rejected by `Tag::new`.
#[derive(Debug, Clone, Copy, PartialEq, Eq, Structural)]
pub enum InvalidTagReason {
    /// The tag was empty after trimming.
    Empty,
    /// The trimmed tag is longer than the maximum length.
    TooLong,
    /// The tag contains an HTML-unsafe character.
    ForbiddenChars,
}

/// All possible errors during blog generation.
#[derive(Debug)]
pub enum BuildError {
    /// A single post failed to parse. Recoverable: skip it, continue others.
    ParseFailed { path: String, message: String },
    /// Tag validation failed. Recoverable: skip the tag.
    InvalidTag { tag: String, reason: InvalidTagReason },
    /// Image optimization failed. Recoverable: fall back to the original image.
    ImageOptFailed { path: String, message: String },
    /// Cannot read the content directory. Fatal.
    ContentNotReadable { path: String, message: String },
    /// Cannot write to the output directory. Fatal.
    OutputNotWritable { path: String, message: String },
    /// No valid posts found to build. Fatal.
    NoValidPosts { path: String },
    /// Should never happen; indicates a bug in the generator.
    Internal(String),
}

impl BuildError {
    /// Whether this error is confined to one input item.
    pub open spec fn spec_is_recoverable(&self) -> bool {
        match self {
            BuildError::ParseFailed { .. } => true,
            BuildError::InvalidTag { .. } => true,
            BuildError::ImageOptFailed { .. } => true,
            _ => false,
        }
    }

    /// Whether this error indicates a defect in the generator itself.
    pub open spec fn spec_is_internal(&self) -> bool {
        self is Internal
    }

    /// Returns true if we can skip this item and continue building.
    pub fn is_recoverable(&self) -> (r: bool)
        ensures
            r == self.spec_is_recoverable(),
    {
        matches!(
            self,
            Self::ParseFailed { .. }
            | Self::InvalidTag { .. }
            | Self::ImageOptFailed { .. }
        )
    }

    /// Returns true if this indicates a bug in the generator.
    pub fn is_internal(&self) -> (r: bool)
        ensures
            r == self.spec_is_internal(),
    {
        matches!(self, Self::Internal(_))
    }
}

/// Result of a build that may have partial failures.
#[derive(Debug)]
pub struct BuildResult {
    pub successes: usize,
    pub failures: Vec<BuildError>,
}

/// The index of the first non-recoverable failure, if any.
pub open spec fn first_fatal(failures: Seq<BuildError>) -> int
    decreases failures.len(),
{
    if failures.len() == 0 {
        0
    } else if !failures[0].spec_is_recoverable() {
        0
    } else {
        1 + first_fatal(failures.drop_first())
    }
}

/// Whether some failure in the sequence is non-recoverable.
pub open spec fn has_fatal(failures: Seq<BuildError>) -> bool {
    exists|i: int| 0 <= i < failures.len() && !(#[trigger] failures[i]).spec_is_recoverable()
}

proof fn lemma_first_fatal(failures: Seq<BuildError>)
    requires
        has_fatal(failures),
    ensures
        0 <= first_fatal(failures) < failures.len(),
        !failures[first_fatal(failures)].spec_is_recoverable(),
        forall|j: int| 0 <= j < first_fatal(failures) ==> (#[trigger] failures[j]).spec_is_recoverable(),
    decreases failures.len(),
{
    if failures.len() == 0 {
    } else if !failures[0].spec_is_recoverable() {
    } else {
        assert(has_fatal(failures.drop_first())) by {
            let i = choose|i: int|
                0 <= i < failures.len() && !(#[trigger] failures[i]).spec_is_recoverable();
            assert(failures.drop_first()[i - 1] == failures[i]);
        }
        lemma_first_fatal(failures.drop_first());
        assert forall|j: int| 0 <= j < first_fatal(failures) implies (#[trigger] failures[j]).spec_is_recoverable() by {
            if j > 0 {
                assert(failures.drop_first()[j - 1] == failures[j]);
            }
        }
    }
}

impl BuildResult {
    pub fn new() -> (r: Self)
        ensures
            r.successes == 0,
            r.failures@ =~= Seq::<BuildError>::empty(),
    {
        Self { successes: 0, failures: Vec::new() }
    }

    pub fn record_success(&mut self)
        requires
            old(self).successes < usize::MAX,
        ensures
            final(self).successes == old(self).successes + 1,
            final(self).failures == old(self).failures,
    {
        self.successes += 1;
    }

    pub fn record_failure(&mut self, error: BuildError)
        ensures
            final(self).successes == old(self).successes,
            final(self).failures@ == old(self).failures@.push(error),
    {
        self.failures.push(error);
    }

    /// Finalization rule: the first non-recoverable failure aborts the build;
    /// with zero successes and at least one failure the build is worthless;
    /// otherwise recoverable failures are reported as warnings of a
    /// successful build.
    pub fn finalize(self) -> (r: Result<BuildSummary, BuildError>)
        ensures
            has_fatal(self.failures@) ==> (r matches Err(e) && e == self.failures@[first_fatal(self.failures@)]),
            !has_fatal(self.failures@) && self.successes == 0 && self.failures@.len() > 0
                ==> (r matches Err(e) && (e matches BuildError::NoValidPosts { path } && path@ == "content"@)),
            !has_fatal(self.failures@) && (self.successes > 0 || self.failures@.len() == 0)
                ==> (r matches Ok(s)
                    && s.posts_built == self.successes
                    && s.posts_skipped == self.failures@.len()
                    && s.warnings == self.failures),
    {
        proof {
            if has_fatal(self.failures@) {
                lemma_first_fatal(self.failures@);
            }
        }
        let mut i: usize = 0;
        let n = self.failures.len();
        while i < n
            invariant
                i <= n,
                n == self.failures@.len(),
                forall|j: int| 0 <= j < i ==> (#[trigger] self.failures@[j]).spec_is_recoverable(),
                has_fatal(self.failures@) ==> 0 <= first_fatal(self.failures@) < self.failures@.len(),
                has_fatal(self.failures@) ==> !self.failures@[first_fatal(self.failures@)].spec_is_recoverable(),
                has_fatal(self.failures@) ==> forall|j: int|
                    0 <= j < first_fatal(self.failures@)
                        ==> (#[trigger] self.failures@[j]).spec_is_recoverable(),
            decreases n - i,
        {
            if !self.failures[i].is_recoverable() {
                proof {
                    assert(!self.failures@[i as int].spec_is_recoverable());
                    assert(has_fatal(self.failures@));
                    let f = first_fatal(self.failures@);
                    if f < i {
                        assert(self.failures@[f].spec_is_recoverable());
                    }
                    if i < f {
                        assert(self.failures@[i as int].spec_is_recoverable());
                    }
                    assert(f == i);
                }
                let BuildResult { successes: _, mut failures } = self;
                return Err(failures.remove(i));
            }
            i += 1;
        }
        proof {
            if has_fatal(self.failures@) {
                let f = first_fatal(self.failures@);
                assert(self.failures@[f].spec_is_recoverable());
            }
        }
        let BuildResult { successes, failures } = self;
        if successes == 0 && failures.len() > 0 {
            return Err(BuildError::NoValidPosts { path: content_path_name() });
        }
        Ok(BuildSummary {
            posts_built: successes,
            posts_skipped: failures.len(),
            warnings: failures,
        })
    }
}

/// The directory name reported by `NoValidPosts`.
fn content_path_name() -> (r: String)
    ensures
        r@ == "content"@,
{
    String::from_str("content")
}

impl Default for BuildResult {
    fn default() -> (r: Self)
        ensures
            r.successes == 0,
            r.failures@ =~= Seq::<BuildError>::empty(),
    {
        Self::new()
    }
}

/// Summary of a successful (possibly partial) build.
#[derive(Debug)]
pub struct BuildSummary {
    pub posts_built: usize,
    pub posts_skipped: usize,
    pub warnings: Vec<BuildError>,
}

} // verus!
