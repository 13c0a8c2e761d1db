use vstd::prelude::*;

use crate::model::narrowed;
use crate::Spanned;
use vstd::slice::slice_index_get;

verus! {

/// Why a predicate-based split did not produce a pair of spans.
#[derive(Clone, Copy, Debug, PartialEq, Eq)]
pub enum SplitError<'a> {
    /// No remaining byte satisfied the predicate and the caller used a
    /// variant that defers to more input: at least this many further bytes
    /// are needed before the question can be settled.
    Incomplete(usize),
    /// A "complete" one-or-more variant found a zero-length match or was
    /// called on empty input: a definitive parse failure at the carried span,
    /// whose position is still readable for diagnostics.
    Unmet(Spanned<'a>),
}

/// Every byte of `s` strictly before `n` was refused by the predicate.
pub open spec fn refused_before<F: Fn(u8) -> bool>(predicate: F, s: Seq<u8>, n: int) -> bool {
    forall|j: int| 0 <= j < n ==> predicate.ensures((#[trigger] s[j],), false)
}

impl<'a> Spanned<'a> {
    /// Index of the first remaining byte satisfying `predicate`, scanning
    /// left to right; `None` when no byte does.
    pub fn position<F: Fn(u8) -> bool>(&self, predicate: F) -> (r: Option<usize>)
        requires
            forall|b: u8| predicate.requires((b,)),
        ensures
            match r {
                Some(n) => {
                    &&& n < self@.data.len()
                    &&& predicate.ensures((self@.data[n as int],), true)
                    &&& refused_before(predicate, self@.data, n as int)
                },
                None => refused_before(predicate, self@.data, self@.data.len() as int),
            },
    {
        let data = self.data();
        let mut i: usize = 0;
        while i < data.len()
            invariant
                i <= data@.len(),
                data@ == self@.data,
                forall|b: u8| predicate.requires((b,)),
                refused_before(predicate, data@, i as int),
            decreases data@.len() - i,
        {
            if predicate(*slice_index_get(data, i)) {
                return Some(i);
            }
            i += 1;
        }
        None
    }

    /// Split at the first byte satisfying `predicate` into
    /// `(remainder, prefix)`. When no byte does, more input might still hold
    /// one, so the split is refused with `Incomplete` rather than decided.
    pub fn split_at_position<F: Fn(u8) -> bool>(&self, predicate: F) -> (r: Result<
        (Self, Self),
        SplitError<'a>,
    >)
        requires
            self.wf(),
            forall|b: u8| predicate.requires((b,)),
        ensures
            match r {
                Ok(pair) => {
                    let n = pair.1@.data.len() as int;
                    &&& n < self@.data.len()
                    &&& pair.1@ == narrowed(self@, 0, n)
                    &&& pair.0@ == narrowed(self@, n, self@.data.len() as int)
                    &&& pair.0.wf()
                    &&& pair.1.wf()
                    &&& predicate.ensures((self@.data[n],), true)
                    &&& refused_before(predicate, self@.data, n)
                },
                Err(e) => {
                    &&& e == SplitError::<'a>::Incomplete(1usize)
                    &&& refused_before(predicate, self@.data, self@.data.len() as int)
                },
            },
    {
        match self.position(predicate) {
            Some(n) => Ok(self.take_split(n)),
            None => Err(SplitError::Incomplete(1)),
        }
    }

    /// One-or-more variant of `split_at_position`. A zero-length match is not
    /// specially rejected at this layer: the streaming caller is left to
    /// judge it, so the behaviour is the same as `split_at_position`.
    pub fn split_at_position1<F: Fn(u8) -> bool>(&self, predicate: F) -> (r: Result<
        (Self, Self),
        SplitError<'a>,
    >)
        requires
            self.wf(),
            forall|b: u8| predicate.requires((b,)),
        ensures
            match r {
                Ok(pair) => {
                    let n = pair.1@.data.len() as int;
                    &&& n < self@.data.len()
                    &&& pair.1@ == narrowed(self@, 0, n)
                    &&& pair.0@ == narrowed(self@, n, self@.data.len() as int)
                    &&& pair.0.wf()
                    &&& pair.1.wf()
                    &&& predicate.ensures((self@.data[n],), true)
                    &&& refused_before(predicate, self@.data, n)
                },
                Err(e) => {
                    &&& e == SplitError::<'a>::Incomplete(1usize)
                    &&& refused_before(predicate, self@.data, self@.data.len() as int)
                },
            },
    {
        match self.position(predicate) {
            Some(n) => Ok(self.take_split(n)),
            None => Err(SplitError::Incomplete(1)),
        }
    }

    /// Like `split_at_position`, but end of input is a valid split point:
    /// when no byte satisfies the predicate the whole remaining input is
    /// consumed. Always succeeds.
    pub fn split_at_position_complete<F: Fn(u8) -> bool>(&self, predicate: F) -> (r: Result<
        (Self, Self),
        SplitError<'a>,
    >)
        requires
            self.wf(),
            forall|b: u8| predicate.requires((b,)),
        ensures
            match r {
                Ok(pair) => {
                    let n = pair.1@.data.len() as int;
                    &&& n <= self@.data.len()
                    &&& pair.1@ == narrowed(self@, 0, n)
                    &&& pair.0@ == narrowed(self@, n, self@.data.len() as int)
                    &&& pair.0.wf()
                    &&& pair.1.wf()
                    &&& refused_before(predicate, self@.data, n)
                    &&& n < self@.data.len() ==> predicate.ensures((self@.data[n],), true)
                },
                Err(e) => false,
            },
    {
        match self.split_at_position(predicate) {
            Err(SplitError::Incomplete(_)) => Ok(self.take_split(self.input_len())),
            res => res,
        }
    }

    /// Complete one-or-more variant: a zero-length match on non-empty input,
    /// or a call on already-empty input, is a definitive local parse failure
    /// carrying the span at the failure point; otherwise it splits like
    /// `split_at_position_complete`.
    pub fn split_at_position1_complete<F: Fn(u8) -> bool>(&self, predicate: F) -> (r: Result<
        (Self, Self),
        SplitError<'a>,
    >)
        requires
            self.wf(),
            forall|b: u8| predicate.requires((b,)),
        ensures
            match r {
                Ok(pair) => {
                    let n = pair.1@.data.len() as int;
                    &&& 0 < n <= self@.data.len()
                    &&& pair.1@ == narrowed(self@, 0, n)
                    &&& pair.0@ == narrowed(self@, n, self@.data.len() as int)
                    &&& pair.0.wf()
                    &&& pair.1.wf()
                    &&& refused_before(predicate, self@.data, n)
                    &&& n < self@.data.len() ==> predicate.ensures((self@.data[n],), true)
                },
                Err(e) => {
                    &&& e == SplitError::<'a>::Unmet(*self)
                    &&& self@.data.len() == 0 || predicate.ensures((self@.data[0],), true)
                },
            },
    {
        match self.position(predicate) {
            Some(n) => {
                if n == 0 {
                    Err(SplitError::Unmet(*self))
                } else {
                    Ok(self.take_split(n))
                }
            },
            None => {
                if self.input_len() == 0 {
                    Err(SplitError::Unmet(*self))
                } else {
                    Ok(self.take_split(self.input_len()))
                }
            },
        }
    }
}

} // verus!
