//! A position-tracking wrapper over byte input for incremental parsers.
//!
//! [`Spanned`] carries the remaining input together with the 1-based line and
//! column and the absolute byte offset of its first byte. Narrowing to a
//! sub-range rescans only the bytes that were dropped, never the whole input,
//! so a full left-to-right parse scans each byte at most once.

use vstd::prelude::*;

pub mod model;
mod scan;
pub mod content;
pub mod laws;
pub mod split;

use crate::model::{
    lemma_char_count_le, lemma_matching_indices_props, line_tail, narrowed, span_wf, SpanModel,
};
use crate::scan::{newline_positions, num_utf8_chars};
use vstd::slice::{slice_index_get, slice_subrange};

verus! {

/// A view over the remaining input, together with the position of its first
/// byte within the original input.
///
/// `line` and `col` are 1-based; `col` counts code points when `handle_utf8`
/// is true and raw bytes otherwise. Narrowing never mutates a span: it
/// produces a new, independent value.
#[derive(Clone, Copy, Debug, PartialEq, Eq)]
pub struct Spanned<'a> {
    data: &'a [u8],
    line: usize,
    col: usize,
    offset: usize,
    handle_utf8: bool,
}

impl<'a> View for Spanned<'a> {
    type V = SpanModel;

    closed spec fn view(&self) -> SpanModel {
        SpanModel {
            data: self.data@,
            line: self.line as int,
            col: self.col as int,
            offset: self.offset as int,
            utf8: self.handle_utf8,
        }
    }
}

impl<'a> Spanned<'a> {
    /// Well-formed span: established by `new` and preserved by every
    /// narrowing operation.
    pub open spec fn wf(self) -> bool {
        span_wf(self@)
    }

    /// Wrap a whole input: position starts at line 1, column 1, offset 0.
    ///
    /// The length bound is a machine limit: with 1-based counters the
    /// position one past the end of the input must still fit in `usize`.
    pub fn new(data: &'a [u8], handle_utf8: bool) -> (r: Self)
        requires
            data@.len() < usize::MAX,
        ensures
            r@ == (SpanModel { data: data@, line: 1, col: 1, offset: 0, utf8: handle_utf8 }),
            r.wf(),
    {
        Spanned { data, line: 1, col: 1, offset: 0, handle_utf8 }
    }

    /// The current line number, 1-based.
    pub fn line(&self) -> (r: usize)
        ensures
            r as int == self@.line,
    {
        self.line
    }

    /// The current column number, 1-based.
    pub fn col(&self) -> (r: usize)
        ensures
            r as int == self@.col,
    {
        self.col
    }

    /// The absolute byte offset of the first remaining byte.
    pub fn byte_offset(&self) -> (r: usize)
        ensures
            r as int == self@.offset,
    {
        self.offset
    }

    /// The remaining input.
    pub fn data(&self) -> (r: &'a [u8])
        ensures
            r@ == self@.data,
    {
        self.data
    }

    /// The remaining input as raw bytes.
    pub fn as_bytes(&self) -> (r: &'a [u8])
        ensures
            r@ == self@.data,
    {
        self.data
    }

    /// Length in bytes of the remaining input.
    pub fn input_len(&self) -> (r: usize)
        ensures
            r == self@.data.len(),
    {
        self.data.len()
    }

    /// A fresh, empty accumulator for collecting content.
    pub fn new_builder(&self) -> (r: Vec<u8>)
        ensures
            r@ == Seq::<u8>::empty(),
    {
        Vec::new()
    }

    /// Append the remaining input to `acc`, leaving its earlier contents in
    /// place.
    pub fn extend_into(&self, acc: &mut Vec<u8>)
        ensures
            final(acc)@ == old(acc)@ + self@.data,
    {
        let data = self.data();
        let mut i: usize = 0;
        proof {
            assert(acc@ =~= acc@ + data@.subrange(0, 0));
        }
        while i < data.len()
            invariant
                i <= data@.len(),
                data@ == self@.data,
                acc@ == old(acc)@ + data@.subrange(0, i as int),
            decreases data@.len() - i,
        {
            acc.push(*slice_index_get(data, i));
            proof {
                assert(acc@ =~= old(acc)@ + data@.subrange(0, i as int + 1));
            }
            i += 1;
        }
        proof {
            assert(acc@ =~= old(acc)@ + self@.data);
        }
    }

    /// Whether a prefix of `count` bytes can be taken: `Ok(count)` when the
    /// remaining input is long enough, otherwise how many further bytes
    /// would be needed.
    pub fn slice_index(&self, count: usize) -> (r: Result<usize, usize>)
        ensures
            count <= self@.data.len() ==> r == Ok::<usize, usize>(count),
            count > self@.data.len() ==> r == Err::<usize, usize>(
                (count - self@.data.len()) as usize,
            ),
    {
        if count <= self.data.len() {
            Ok(count)
        } else {
            Err(count - self.data.len())
        }
    }

    /// Byte distance from `self` to `second`, a span derived from the same
    /// input at or after `self`.
    pub fn offset(&self, second: &Self) -> (r: usize)
        requires
            self@.offset <= second@.offset,
        ensures
            r as int == second@.offset - self@.offset,
    {
        second.offset - self.offset
    }

    /// Narrow to the byte range `[start, end)` of the remaining input: the
    /// core of the position tracker.
    ///
    /// Only the `start` dropped bytes are scanned for newlines — never bytes
    /// consumed by an earlier narrowing — so a full left-to-right parse scans
    /// each input byte at most once. The new position is exactly `narrowed`
    /// of the old one.
    pub fn slice(&self, start: usize, end: usize) -> (r: Self)
        requires
            self.wf(),
            start <= end <= self@.data.len(),
        ensures
            r@ == narrowed(self@, start as int, end as int),
            r.wf(),
    {
        let next_data = slice_subrange(self.data, start, end);
        if start == 0 {
            let r = Spanned {
                data: next_data,
                line: self.line,
                col: self.col,
                offset: self.offset,
                handle_utf8: self.handle_utf8,
            };
            proof {
                assert(r@ =~= narrowed(self@, start as int, end as int));
            }
            return r;
        }
        let consumed = slice_subrange(self.data, 0, start);
        let positions = newline_positions(consumed);
        let k = positions.len();
        proof {
            lemma_matching_indices_props(consumed@, 0x0A);
        }
        let last_index: usize = if k == 0 {
            0
        } else {
            positions[k - 1] + 1
        };
        let ghost tail = line_tail(consumed@);
        proof {
            assert(tail =~= consumed@.subrange(last_index as int, start as int));
            lemma_char_count_le(tail);
        }
        let width: usize = if self.handle_utf8 {
            num_utf8_chars(slice_subrange(consumed, last_index, start))
        } else {
            start - last_index
        };
        let new_line = self.line + k;
        let new_col = if k == 0 {
            self.col + width
        } else {
            width + 1
        };
        let r = Spanned {
            data: next_data,
            line: new_line,
            col: new_col,
            offset: self.offset + start,
            handle_utf8: self.handle_utf8,
        };
        proof {
            assert(r@ =~= narrowed(self@, start as int, end as int));
        }
        r
    }

    /// The prefix of length `count`. The result starts where `self` starts,
    /// so its line, column and offset are unchanged.
    pub fn take(&self, count: usize) -> (r: Self)
        requires
            self.wf(),
            count <= self@.data.len(),
        ensures
            r@ == narrowed(self@, 0, count as int),
            r@.data == self@.data.subrange(0, count as int),
            r@.line == self@.line,
            r@.col == self@.col,
            r@.offset == self@.offset,
            r@.utf8 == self@.utf8,
            r.wf(),
    {
        self.slice(0, count)
    }

    /// Split into `(remainder, prefix)` at byte `count`: the prefix keeps the
    /// old position, the remainder picks up the line/column/offset update.
    pub fn take_split(&self, count: usize) -> (r: (Self, Self))
        requires
            self.wf(),
            count <= self@.data.len(),
        ensures
            r.1@ == narrowed(self@, 0, count as int),
            r.0@ == narrowed(self@, count as int, self@.data.len() as int),
            r.0.wf(),
            r.1.wf(),
    {
        (self.slice(count, self.data.len()), self.slice(0, count))
    }
}

} // verus!
