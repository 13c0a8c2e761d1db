use vstd::prelude::*;

verus! {

/// Mathematical model of a position-tracking span: the remaining bytes of the
/// input, the 1-based line and column of their first byte within the original
/// input, the absolute byte offset of that byte, and the column-counting mode.
#[verifier::ext_equal]
pub struct SpanModel {
    pub data: Seq<u8>,
    pub line: int,
    pub col: int,
    pub offset: int,
    pub utf8: bool,
}

/// A UTF-8 continuation byte: the second to fourth byte of a multi-byte
/// code point. Every code point contributes exactly one non-continuation byte.
pub open spec fn is_continuation(b: u8) -> bool {
    0x80 <= b < 0xC0
}

/// Number of UTF-8 code points that start inside `s`: the count of bytes of
/// `s` that are not continuation bytes.
pub open spec fn char_count(s: Seq<u8>) -> nat
    decreases s.len(),
{
    if s.len() == 0 {
        0
    } else {
        char_count(s.drop_last()) + if is_continuation(s.last()) {
            0nat
        } else {
            1nat
        }
    }
}

/// Width of a run of bytes in columns: code points in UTF-8 mode, raw bytes
/// otherwise.
pub open spec fn col_width(s: Seq<u8>, utf8: bool) -> nat {
    if utf8 {
        char_count(s)
    } else {
        s.len()
    }
}

/// The indices at which the byte `b` occurs in `s`, in increasing order.
pub open spec fn matching_indices(s: Seq<u8>, b: u8) -> Seq<int>
    decreases s.len(),
{
    if s.len() == 0 {
        Seq::empty()
    } else if s.last() == b {
        matching_indices(s.drop_last(), b).push(s.len() - 1)
    } else {
        matching_indices(s.drop_last(), b)
    }
}

/// How many newline bytes (0x0A) `s` holds.
pub open spec fn newline_count(s: Seq<u8>) -> nat {
    matching_indices(s, 0x0A).len()
}

/// The bytes of `s` after its last newline, or all of `s` when it holds none:
/// the part of the consumed region that lies on the line a narrowing ends on.
pub open spec fn line_tail(s: Seq<u8>) -> Seq<u8> {
    let idx = matching_indices(s, 0x0A);
    if idx.len() == 0 {
        s
    } else {
        s.subrange(idx.last() + 1, s.len() as int)
    }
}

/// Well-formed span: counters are 1-based and bounded by the byte offset, and
/// the position one past the end of the input still fits in `usize`, so no
/// derived position can overflow.
pub open spec fn span_wf(m: SpanModel) -> bool {
    &&& 1 <= m.line
    &&& 1 <= m.col
    &&& m.line + m.col <= m.offset + 2
    &&& 0 <= m.offset
    &&& m.offset + m.data.len() < usize::MAX
}

/// The model of the span produced by narrowing `m` to the byte range
/// `[start, end)` of its data: the `start` dropped bytes are scanned for
/// newlines, the line advances by their number, and the column restarts at 1
/// after the last newline found (or carries the old column when none is).
pub open spec fn narrowed(m: SpanModel, start: int, end: int) -> SpanModel {
    let consumed = m.data.subrange(0, start);
    let k = newline_count(consumed);
    SpanModel {
        data: m.data.subrange(start, end),
        line: m.line + k,
        col: if k == 0 {
            m.col + col_width(line_tail(consumed), m.utf8)
        } else {
            col_width(line_tail(consumed), m.utf8) + 1int
        },
        offset: m.offset + start,
        utf8: m.utf8,
    }
}

/// Every element of `s` moved up by `n`.
pub open spec fn shift_by(s: Seq<int>, n: int) -> Seq<int> {
    s.map_values(|v: int| v + n)
}

pub proof fn lemma_char_count_concat(x: Seq<u8>, y: Seq<u8>)
    ensures
        char_count(x + y) == char_count(x) + char_count(y),
    decreases y.len(),
{
    if y.len() == 0 {
        assert(x + y =~= x);
    } else {
        lemma_char_count_concat(x, y.drop_last());
        assert((x + y).drop_last() =~= x + y.drop_last());
        assert((x + y).last() == y.last());
    }
}

/// `matching_indices` of a concatenation: the indices found in `x`, then the
/// indices found in `y` shifted past `x`.
pub proof fn lemma_matching_indices_concat(x: Seq<u8>, y: Seq<u8>, b: u8)
    ensures
        matching_indices(x + y, b) == matching_indices(x, b) + shift_by(
            matching_indices(y, b),
            x.len() as int,
        ),
    decreases y.len(),
{
    if y.len() == 0 {
        assert(x + y =~= x);
        assert(matching_indices(x, b) + shift_by(matching_indices(y, b), x.len() as int)
            =~= matching_indices(x, b));
    } else {
        let y2 = y.drop_last();
        lemma_matching_indices_concat(x, y2, b);
        assert((x + y).drop_last() =~= x + y2);
        assert((x + y).last() == y.last());
        if y.last() == b {
            assert(matching_indices(x + y, b) == matching_indices(x + y2, b).push(
                x.len() + y.len() - 1,
            ));
            assert(matching_indices(y, b) == matching_indices(y2, b).push(y.len() - 1));
            assert(shift_by(matching_indices(y, b), x.len() as int) =~= shift_by(
                matching_indices(y2, b),
                x.len() as int,
            ).push(x.len() + y.len() - 1));
            assert(matching_indices(x, b) + shift_by(matching_indices(y, b), x.len() as int)
                =~= (matching_indices(x, b) + shift_by(matching_indices(y2, b), x.len() as int)).push(
                x.len() + y.len() - 1,
            ));
        } else {
            assert(matching_indices(x + y, b) == matching_indices(x + y2, b));
            assert(matching_indices(y, b) == matching_indices(y2, b));
        }
    }
}

pub proof fn lemma_char_count_le(s: Seq<u8>)
    ensures
        char_count(s) <= s.len(),
    decreases s.len(),
{
    if s.len() > 0 {
        lemma_char_count_le(s.drop_last());
    }
}

/// Every recorded index is a position of `b` in `s`, and the `i`-th recorded
/// index is at least `i` (the indices increase), so there are never more
/// matches than bytes up to and including the last match.
pub proof fn lemma_matching_indices_props(s: Seq<u8>, b: u8)
    ensures
        forall|i: int|
            0 <= i < matching_indices(s, b).len() ==> i <= #[trigger] matching_indices(s, b)[i]
                < s.len() && s[matching_indices(s, b)[i]] == b,
    decreases s.len(),
{
    if s.len() > 0 {
        let prefix = s.drop_last();
        lemma_matching_indices_props(prefix, b);
        let pidx = matching_indices(prefix, b);
        let idx = matching_indices(s, b);
        assert(pidx.len() <= prefix.len()) by {
            if pidx.len() > 0 {
                assert(pidx.len() - 1 <= pidx[pidx.len() - 1] < prefix.len());
            }
        }
        assert forall|i: int| 0 <= i < idx.len() implies i <= idx[i] < s.len() && s[idx[i]]
            == b by {
            if i < pidx.len() {
                assert(idx[i] == pidx[i]);
                assert(prefix[pidx[i]] == s[pidx[i]]);
            } else {
                assert(s.last() == b);
                assert(idx[i] == s.len() - 1);
            }
        }
    }
}

/// The recorded indices are strictly increasing: no position is recorded
/// twice.
pub proof fn lemma_matching_indices_increasing(s: Seq<u8>, b: u8)
    ensures
        forall|i: int, j: int|
            0 <= i < j < matching_indices(s, b).len() ==> #[trigger] matching_indices(s, b)[i]
                < #[trigger] matching_indices(s, b)[j],
    decreases s.len(),
{
    if s.len() > 0 {
        let prefix = s.drop_last();
        lemma_matching_indices_increasing(prefix, b);
        lemma_matching_indices_props(prefix, b);
        let pidx = matching_indices(prefix, b);
        let idx = matching_indices(s, b);
        assert forall|i: int, j: int| 0 <= i < j < idx.len() implies idx[i] < idx[j] by {
            if s.last() == b && j == pidx.len() {
                assert(idx[i] == pidx[i] < prefix.len());
            }
        }
    }
}

/// Completeness: every position of `b` in `s` is recorded.
pub proof fn lemma_matching_indices_complete(s: Seq<u8>, b: u8, j: int)
    requires
        0 <= j < s.len(),
        s[j] == b,
    ensures
        matching_indices(s, b).contains(j),
    decreases s.len(),
{
    let idx = matching_indices(s, b);
    if j == s.len() - 1 {
        assert(idx[idx.len() - 1] == j);
    } else {
        let prefix = s.drop_last();
        lemma_matching_indices_complete(prefix, b, j);
        let i = choose|i: int| 0 <= i < matching_indices(prefix, b).len() && matching_indices(
            prefix,
            b,
        )[i] == j;
        assert(idx[i] == j);
    }
}

} // verus!
