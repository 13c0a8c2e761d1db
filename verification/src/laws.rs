use vstd::prelude::*;

use crate::model::{
    col_width, lemma_char_count_concat, lemma_matching_indices_complete,
    lemma_matching_indices_concat, lemma_matching_indices_increasing,
    lemma_matching_indices_props, line_tail, matching_indices, narrowed, shift_by, SpanModel,
};

verus! {

/// Offset additivity: two narrowings in sequence advance the byte offset by
/// exactly the sum of the bytes each of them dropped.
pub proof fn lemma_offset_additive(m: SpanModel, k1: int, e1: int, k2: int, e2: int)
    requires
        0 <= k1 <= e1 <= m.data.len(),
        0 <= k2 <= e2 <= e1 - k1,
    ensures
        narrowed(narrowed(m, k1, e1), k2, e2).offset == m.offset + k1 + k2,
{
}

/// Zero-offset identity: a narrowing that drops no leading byte leaves line,
/// column, byte offset and counting mode unchanged; only the data differs.
pub proof fn lemma_zero_offset_identity(m: SpanModel, end: int)
    requires
        0 <= end <= m.data.len(),
    ensures
        narrowed(m, 0, end).line == m.line,
        narrowed(m, 0, end).col == m.col,
        narrowed(m, 0, end).offset == m.offset,
        narrowed(m, 0, end).utf8 == m.utf8,
{
    assert(m.data.subrange(0, 0) =~= Seq::<u8>::empty());
}

/// The span left after performing the narrowing requests of `steps`, in
/// order, each interpreted over the data the previous steps left.
pub open spec fn narrow_chain(m: SpanModel, steps: Seq<(int, int)>) -> SpanModel
    decreases steps.len(),
{
    if steps.len() == 0 {
        m
    } else {
        narrow_chain(narrowed(m, steps[0].0, steps[0].1), steps.drop_first())
    }
}

/// Each step of `steps` narrows within the data the steps before it left.
pub open spec fn chain_in_bounds(m: SpanModel, steps: Seq<(int, int)>) -> bool
    decreases steps.len(),
{
    steps.len() == 0 || {
        &&& 0 <= steps[0].0 <= steps[0].1 <= m.data.len()
        &&& chain_in_bounds(narrowed(m, steps[0].0, steps[0].1), steps.drop_first())
    }
}

/// Line monotonicity: across any sequence of narrowings — which only ever
/// move forward through the input — the line number never decreases.
pub proof fn lemma_line_monotone_chain(m: SpanModel, steps: Seq<(int, int)>)
    requires
        chain_in_bounds(m, steps),
    ensures
        narrow_chain(m, steps).line >= m.line,
    decreases steps.len(),
{
    if steps.len() > 0 {
        lemma_line_monotone_chain(narrowed(m, steps[0].0, steps[0].1), steps.drop_first());
    }
}

/// Narrowing twice gives the same position as narrowing once past the
/// combined prefix: the incremental update, which only ever scans the newly
/// dropped bytes, never disagrees with a single scan of everything consumed
/// so far.
pub proof fn lemma_incremental_matches_rescan(m: SpanModel, k1: int, e1: int, k2: int, e2: int)
    requires
        0 <= k1 <= e1 <= m.data.len(),
        0 <= k2 <= e2 <= e1 - k1,
    ensures
        narrowed(narrowed(m, k1, e1), k2, e2) == narrowed(m, k1 + k2, k1 + e2),
{
    let a = m.data.subrange(0, k1);
    let b = m.data.subrange(k1, k1 + k2);
    let c = m.data.subrange(0, k1 + k2);
    let m1 = narrowed(m, k1, e1);
    assert(c =~= a + b);
    assert(m1.data.subrange(0, k2) =~= b);
    assert(m1.data.subrange(k2, e2) =~= m.data.subrange(k1 + k2, k1 + e2));
    lemma_matching_indices_concat(a, b, 0x0A);
    let idx_a = matching_indices(a, 0x0A);
    let idx_b = matching_indices(b, 0x0A);
    let idx_c = matching_indices(c, 0x0A);
    assert(idx_c.len() == idx_a.len() + idx_b.len());
    lemma_matching_indices_props(a, 0x0A);
    lemma_matching_indices_props(b, 0x0A);
    if idx_b.len() > 0 {
        // the last newline of the combined prefix lies in `b`, so both sides
        // restart the column after it
        assert(idx_c.last() == idx_b.last() + a.len());
        assert(line_tail(c) =~= line_tail(b));
    } else if idx_a.len() > 0 {
        // no newline in `b`: the tail of the combined prefix is the tail of
        // `a` followed by all of `b`
        assert(shift_by(idx_b, a.len() as int) =~= Seq::<int>::empty());
        assert(idx_c =~= idx_a);
        assert(idx_c.last() == idx_a.last());
        assert(line_tail(c) =~= line_tail(a) + b);
        lemma_char_count_concat(line_tail(a), b);
        assert(line_tail(b) =~= b);
    } else {
        // no newline anywhere: both columns advance by the width of all
        // consumed bytes
        assert(idx_c.len() == 0);
        assert(line_tail(c) =~= a + b);
        assert(line_tail(a) =~= a);
        assert(line_tail(b) =~= b);
        lemma_char_count_concat(a, b);
    }
    assert(narrowed(narrowed(m, k1, e1), k2, e2) =~= narrowed(m, k1 + k2, k1 + e2));
}

/// Across any sequence of narrowings, the line and column equal what one
/// scan of the total consumed prefix — from the very start — would give:
/// tracking positions incrementally loses nothing.
pub proof fn lemma_chain_matches_rescan(m: SpanModel, steps: Seq<(int, int)>)
    requires
        chain_in_bounds(m, steps),
    ensures
        ({
            let f = narrow_chain(m, steps);
            let k = f.offset - m.offset;
            &&& 0 <= k <= m.data.len()
            &&& f.line == narrowed(m, k, k).line
            &&& f.col == narrowed(m, k, k).col
            &&& f.utf8 == m.utf8
        }),
    decreases steps.len(),
{
    if steps.len() == 0 {
        lemma_zero_offset_identity(m, 0);
    } else {
        let s0 = steps[0].0;
        let e0 = steps[0].1;
        let m1 = narrowed(m, s0, e0);
        lemma_chain_matches_rescan(m1, steps.drop_first());
        let f = narrow_chain(m, steps);
        let k2 = f.offset - m1.offset;
        lemma_incremental_matches_rescan(m, s0, e0, k2, k2);
    }
}

/// Newline resets the column: when the dropped region holds exactly one
/// newline, at index `p`, the new column is 1 plus the width of what follows
/// that newline — whatever the column was before the narrowing.
pub proof fn lemma_newline_resets_col(m: SpanModel, start: int, end: int, p: int)
    requires
        0 <= start <= end <= m.data.len(),
        0 <= p < start,
        m.data[p] == 0x0A,
        forall|j: int| 0 <= j < start && j != p ==> m.data[j] != 0x0A,
    ensures
        narrowed(m, start, end).col == 1 + col_width(m.data.subrange(p + 1, start), m.utf8),
{
    let consumed = m.data.subrange(0, start);
    let idx = matching_indices(consumed, 0x0A);
    lemma_matching_indices_props(consumed, 0x0A);
    lemma_matching_indices_increasing(consumed, 0x0A);
    lemma_matching_indices_complete(consumed, 0x0A, p);
    assert(forall|i: int| 0 <= i < idx.len() ==> #[trigger] idx[i] == p);
    assert(idx.len() < 2) by {
        if idx.len() >= 2 {
            assert(idx[0] < idx[1]);
        }
    }
    assert(idx.len() == 1);
    assert(idx.last() == p);
    assert(consumed.subrange(p + 1, consumed.len() as int) =~= m.data.subrange(p + 1, start));
}

} // verus!
