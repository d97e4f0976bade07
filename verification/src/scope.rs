//! Git ranges and revisions behind the branch-scope and diff views.  The
//! Git processes themselves run outside the library; it decides which
//! range is acceptable, what base a range diffs against, and what their
//! output means.
use vstd::prelude::*;
use crate::text::{chars_of, find_first, is_control_exec, is_whitespace_exec, slice_of, string_of};

verus! {

/// A range is refused.
#[derive(Debug, Clone, Copy, PartialEq, Eq, Structural)]
pub enum DiffRangeError {
    InvalidRange,
}

impl DiffRangeError {
    /// The message of the refusal.
    pub fn message(&self) -> (r: &'static str)
        ensures
            r@ == "invalid Git range"@,
    {
        "invalid Git range"
    }
}

/// A range Git may be given: not blank, not an option (a leading `-`), and
/// free of control characters and white space.
pub open spec fn valid_diff_range(range: Seq<char>) -> bool {
    &&& !(forall|i: int| 0 <= i < range.len() ==> crate::text::is_unicode_whitespace(#[trigger] range[i]))
    &&& !(range.len() > 0 && range[0] == '-')
    &&& forall|i: int|
        0 <= i < range.len() ==> !crate::text::is_unicode_control(#[trigger] range[i])
            && !crate::text::is_unicode_whitespace(range[i])
}

fn valid_range_chars(range: &Vec<char>) -> (r: bool)
    ensures
        r == valid_diff_range(range@),
{
    if range.len() == 0 {
        return false;
    }
    if range[0] == '-' {
        return false;
    }
    let mut i: usize = 0;
    while i < range.len()
        invariant
            i <= range.len(),
            range.len() > 0,
            forall|k: int|
                0 <= k < i ==> !crate::text::is_unicode_control(#[trigger] range@[k])
                    && !crate::text::is_unicode_whitespace(range@[k]),
        decreases range.len() - i,
    {
        if is_control_exec(range[i]) || is_whitespace_exec(range[i]) {
            return false;
        }
        i = i + 1;
    }
    assert(!crate::text::is_unicode_whitespace(range@[0]));
    true
}

/// Accepts a Git range or revision, or refuses it.
pub fn validate_diff_range(range: &str) -> (r: Result<(), DiffRangeError>)
    ensures
        r is Ok <==> valid_diff_range(range@),
{
    if valid_range_chars(&chars_of(range)) {
        Ok(())
    } else {
        Err(DiffRangeError::InvalidRange)
    }
}

/// What a diff range is compared against.
#[derive(Debug, Clone)]
pub enum DiffBase {
    /// The merge base of two revisions (a `left...right` range).
    MergeBase { left: String, right: String },
    /// A revision itself.
    Revision { revision: String },
}

/// The base of a range: the merge base of the two sides of the first
/// `...`, else the left side of the first `..`, else the range itself.
pub open spec fn spec_diff_base(range: Seq<char>) -> Result<(Seq<char>, Option<Seq<char>>), ()> {
    if crate::text::contains_seq(range, "..."@) {
        let i = choose|i: int| crate::text::first_occurrence(range, "..."@, i);
        let left = range.subrange(0, i);
        let right = range.subrange(i + 3, range.len() as int);
        if valid_diff_range(left) && valid_diff_range(right) {
            Ok((left, Some(right)))
        } else {
            Err(())
        }
    } else if crate::text::contains_seq(range, ".."@) {
        let i = choose|i: int| crate::text::first_occurrence(range, ".."@, i);
        let left = range.subrange(0, i);
        if valid_diff_range(left) {
            Ok((left, None))
        } else {
            Err(())
        }
    } else {
        Ok((range, None))
    }
}

pub open spec fn diff_base_view(b: DiffBase) -> (Seq<char>, Option<Seq<char>>) {
    match b {
        DiffBase::MergeBase { left, right } => (left@, Some(right@)),
        DiffBase::Revision { revision } => (revision@, None),
    }
}

proof fn lemma_first_unique(hay: Seq<char>, needle: Seq<char>, i: int, j: int)
    requires
        crate::text::first_occurrence(hay, needle, i),
        crate::text::first_occurrence(hay, needle, j),
    ensures
        i == j,
{
}

/// The base a diff range compares against: a merge base to compute from
/// two revisions, or a revision.
pub fn diff_base_revision(range: &str) -> (r: Result<DiffBase, DiffRangeError>)
    ensures
        match r {
            Ok(b) => spec_diff_base(range@) == Ok::<(Seq<char>, Option<Seq<char>>), ()>(
                diff_base_view(b),
            ),
            Err(_) => spec_diff_base(range@) is Err,
        },
{
    let chars = chars_of(range);
    let three = chars_of("...");
    let two = chars_of("..");
    proof {
        reveal_strlit("...");
        reveal_strlit("..");
    }
    match find_first(&chars, &three) {
        Some(i) => {
            proof {
                assert(crate::text::contains_seq(range@, "..."@));
                let c = choose|c: int| crate::text::first_occurrence(range@, "..."@, c);
                lemma_first_unique(range@, "..."@, i as int, c);
            }
            let left = slice_of(&chars, 0, i);
            let right = slice_of(&chars, i + 3, chars.len());
            if !valid_range_chars(&left) || !valid_range_chars(&right) {
                return Err(DiffRangeError::InvalidRange);
            }
            Ok(DiffBase::MergeBase { left: string_of(&left), right: string_of(&right) })
        },
        None => match find_first(&chars, &two) {
            Some(i) => {
                proof {
                    assert(crate::text::contains_seq(range@, ".."@));
                    let c = choose|c: int| crate::text::first_occurrence(range@, ".."@, c);
                    lemma_first_unique(range@, ".."@, i as int, c);
                }
                let left = slice_of(&chars, 0, i);
                if !valid_range_chars(&left) {
                    return Err(DiffRangeError::InvalidRange);
                }
                Ok(DiffBase::Revision { revision: string_of(&left) })
            },
            None => Ok(DiffBase::Revision { revision: string_of(&chars) }),
        },
    }
}

// ---------------------------------------------------------------------------
// Revisions reported by Git

/// Names what `String::from_utf8` gives for bytes: their text when they are
/// valid UTF-8.
pub uninterp spec fn utf8_decoded(bytes: Seq<u8>) -> Option<Seq<char>>;

/// Names what `String::from_utf8_lossy` gives for bytes: their text, with
/// U+FFFD in place of each invalid sequence.
pub uninterp spec fn utf8_lossy(bytes: Seq<u8>) -> Seq<char>;

/// Calls std's `String::from_utf8`.  The contract names the result; it
/// depends on the bytes alone.
#[verifier::external_body]
pub(crate) fn decode_utf8(bytes: Vec<u8>) -> (r: Option<String>)
    ensures
        match r {
            Some(s) => utf8_decoded(bytes@) == Some(s@),
            None => utf8_decoded(bytes@) is None,
        },
{
    String::from_utf8(bytes).ok()
}

/// Calls std's `String::from_utf8_lossy`.  The contract names the result;
/// it depends on the bytes alone.
#[verifier::external_body]
pub(crate) fn decode_utf8_lossy(bytes: &[u8]) -> (r: String)
    ensures
        r@ == utf8_lossy(bytes@),
{
    String::from_utf8_lossy(bytes).into_owned()
}

/// Why `git merge-base` gave no base.
#[derive(Debug, Clone, Copy, PartialEq, Eq, Structural)]
pub enum MergeBaseError {
    /// The output is not UTF-8 text.
    NotText,
    /// The output holds no revision.
    NoRevision,
}

/// The revision `git merge-base` printed, trimmed.
pub open spec fn spec_merge_base(output: Seq<u8>) -> Result<Seq<char>, MergeBaseError> {
    match utf8_decoded(output) {
        None => Err(MergeBaseError::NotText),
        Some(text) => if crate::text::trimmed(text).len() == 0 {
            Err(MergeBaseError::NoRevision)
        } else {
            Ok(crate::text::trimmed(text))
        },
    }
}

/// The merge base in the output of `git merge-base left right`.
pub fn git_merge_base(output: Vec<u8>) -> (r: Result<String, MergeBaseError>)
    ensures
        match r {
            Ok(s) => spec_merge_base(output@) == Ok::<Seq<char>, MergeBaseError>(s@),
            Err(e) => spec_merge_base(output@) == Err::<Seq<char>, MergeBaseError>(e),
        },
{
    let ghost bytes = output@;
    match decode_utf8(output) {
        None => Err(MergeBaseError::NotText),
        Some(text) => {
            let revision = crate::text::trim(text.as_str());
            if chars_of(revision.as_str()).len() == 0 {
                Err(MergeBaseError::NoRevision)
            } else {
                Ok(revision)
            }
        },
    }
}

/// The message for a merge base that Git did not report.
pub fn no_merge_base_message(left: &str, right: &str) -> (r: String)
    ensures
        r@ == "git merge-base "@ + left@ + " "@ + right@ + " returned no revision"@,
{
    let mut r = crate::text::owned("git merge-base ");
    crate::text::append(&mut r, left);
    crate::text::append(&mut r, " ");
    crate::text::append(&mut r, right);
    crate::text::append(&mut r, " returned no revision");
    r
}

/// The parent of `HEAD` when Git names one (`git rev-parse HEAD^`), else
/// `HEAD` itself (`git rev-parse HEAD`); each output is read as text and
/// trimmed.
pub open spec fn spec_parent_or_current(parent: Option<Seq<u8>>, current: Option<Seq<u8>>) -> Option<
    Seq<char>,
> {
    match parent {
        Some(b) => Some(crate::text::trimmed(utf8_lossy(b))),
        None => match current {
            Some(b) => Some(crate::text::trimmed(utf8_lossy(b))),
            None => None,
        },
    }
}

pub open spec fn bytes_view(b: Option<Vec<u8>>) -> Option<Seq<u8>> {
    match b {
        Some(v) => Some(v@),
        None => None,
    }
}

/// The revision to diff against when no range was configured, from the
/// outputs of the two Git commands that succeeded (`None` for a failure).
pub fn parent_or_current(parent: Option<Vec<u8>>, current: Option<Vec<u8>>) -> (r: Option<String>)
    ensures
        r matches Some(s) ==> spec_parent_or_current(bytes_view(parent), bytes_view(current))
            == Some(s@),
        r is None ==> spec_parent_or_current(bytes_view(parent), bytes_view(current)) is None,
{
    let chosen = match parent {
        Some(b) => Some(b),
        None => current,
    };
    match chosen {
        Some(b) => {
            let text = decode_utf8_lossy(b.as_slice());
            Some(crate::text::trim(text.as_str()))
        },
        None => None,
    }
}

} // verus!
