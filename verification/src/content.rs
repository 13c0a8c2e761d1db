use vstd::prelude::*;

use crate::Spanned;
use vstd::slice::slice_index_get;

verus! {

/// Outcome of comparing the remaining input against an expected pattern:
/// the wrapper forwards the comparison to its content unchanged.
#[derive(Clone, Copy, Debug, PartialEq, Eq, Structural)]
pub enum CompareOutcome {
    /// The pattern is a prefix of the remaining input.
    Matched,
    /// The remaining input is a proper prefix of the pattern: no
    /// disagreement yet, but more input would be needed to finish.
    Incomplete,
    /// The two disagree somewhere in their common prefix.
    Mismatch,
}

/// ASCII lowercase folding: the only folding the case-insensitive
/// comparison performs.
pub open spec fn ascii_lower(b: u8) -> u8 {
    if 0x41 <= b <= 0x5A {
        (b + 0x20) as u8
    } else {
        b
    }
}

/// Byte equality, exact or under ASCII case folding.
pub open spec fn byte_eq(x: u8, y: u8, no_case: bool) -> bool {
    if no_case {
        ascii_lower(x) == ascii_lower(y)
    } else {
        x == y
    }
}

/// The first `n` bytes of `a` and `b` agree.
pub open spec fn agree_up_to(a: Seq<u8>, b: Seq<u8>, n: int, no_case: bool) -> bool {
    forall|i: int| 0 <= i < n ==> byte_eq(#[trigger] a[i], b[i], no_case)
}

/// Length of the common prefix region: the shorter of the two lengths.
pub open spec fn overlap(a: Seq<u8>, b: Seq<u8>) -> int {
    if a.len() <= b.len() {
        a.len() as int
    } else {
        b.len() as int
    }
}

/// What comparing `a` against the pattern `b` yields: a mismatch anywhere in
/// the overlap decides; otherwise `a` either covers `b` or ran out first.
pub open spec fn compare_spec(a: Seq<u8>, b: Seq<u8>, no_case: bool) -> CompareOutcome {
    if !agree_up_to(a, b, overlap(a, b), no_case) {
        CompareOutcome::Mismatch
    } else if a.len() < b.len() {
        CompareOutcome::Incomplete
    } else {
        CompareOutcome::Matched
    }
}

fn ascii_lower_byte(b: u8) -> (r: u8)
    ensures
        r == ascii_lower(b),
{
    if 0x41 <= b && b <= 0x5A {
        b + 0x20
    } else {
        b
    }
}

fn compare_bytes(a: &[u8], b: &[u8], no_case: bool) -> (r: CompareOutcome)
    ensures
        r == compare_spec(a@, b@, no_case),
{
    let short: usize = if a.len() <= b.len() {
        a.len()
    } else {
        b.len()
    };
    let mut i: usize = 0;
    while i < short
        invariant
            i <= short,
            short == overlap(a@, b@),
            short <= a@.len() && short <= b@.len(),
            agree_up_to(a@, b@, i as int, no_case),
        decreases short - i,
    {
        let x = *slice_index_get(a, i);
        let y = *slice_index_get(b, i);
        let same = if no_case {
            ascii_lower_byte(x) == ascii_lower_byte(y)
        } else {
            x == y
        };
        if !same {
            assert(!byte_eq(a@[i as int], b@[i as int], no_case));
            return CompareOutcome::Mismatch;
        }
        i += 1;
    }
    if a.len() < b.len() {
        CompareOutcome::Incomplete
    } else {
        CompareOutcome::Matched
    }
}

impl<'a> Spanned<'a> {
    /// Compare the remaining input with the pattern `t`, byte for byte.
    pub fn compare(&self, t: &[u8]) -> (r: CompareOutcome)
        ensures
            r == compare_spec(self@.data, t@, false),
    {
        compare_bytes(self.data(), t, false)
    }

    /// Compare the remaining input with the pattern `t` under ASCII case
    /// folding.
    pub fn compare_no_case(&self, t: &[u8]) -> (r: CompareOutcome)
        ensures
            r == compare_spec(self@.data, t@, true),
    {
        compare_bytes(self.data(), t, true)
    }

    /// Whether the single byte `token` occurs anywhere in the remaining
    /// input.
    pub fn find_token(&self, token: u8) -> (r: bool)
        ensures
            r <==> exists|i: int| 0 <= i < self@.data.len() && self@.data[i] == token,
    {
        let data = self.data();
        let mut i: usize = 0;
        while i < data.len()
            invariant
                i <= data@.len(),
                data@ == self@.data,
                forall|j: int| 0 <= j < i ==> self@.data[j] != token,
            decreases data@.len() - i,
        {
            if *slice_index_get(data, i) == token {
                return true;
            }
            i += 1;
        }
        false
    }

    /// Index of the first occurrence of `substr` in the remaining input, or
    /// `None` when it does not occur.
    pub fn find_substring(&self, substr: &[u8]) -> (r: Option<usize>)
        ensures
            match r {
                Some(i) => occurs_at(self@.data, substr@, i as int) && forall|j: int|
                    0 <= j < i ==> !occurs_at(self@.data, substr@, j),
                None => forall|j: int| !occurs_at(self@.data, substr@, j),
            },
    {
        find_sub(self.data(), substr)
    }
}

/// `needle` occurs in `hay` starting at index `i`.
pub open spec fn occurs_at(hay: Seq<u8>, needle: Seq<u8>, i: int) -> bool {
    &&& 0 <= i
    &&& i + needle.len() <= hay.len()
    &&& hay.subrange(i, i + needle.len()) == needle
}

/// Relies on `nom::FindSubstring` for byte slices: the byte index of the
/// first occurrence of the needle in the haystack, `None` when there is
/// none, and `Some(0)` for an empty needle.
#[verifier::external_body]
fn find_sub(hay: &[u8], needle: &[u8]) -> (r: Option<usize>)
    ensures
        match r {
            Some(i) => occurs_at(hay@, needle@, i as int) && forall|j: int|
                0 <= j < i ==> !occurs_at(hay@, needle@, j),
            None => forall|j: int| !occurs_at(hay@, needle@, j),
        },
{
    nom::FindSubstring::find_substring(&hay, needle)
}

} // verus!
