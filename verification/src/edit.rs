//! Edit-coordinate translation: from a host text delta to the parser's edit
//! model.
//!
//! A delta replaces the byte interval `[start, end)` of the old text with
//! `new_length` bytes. The parser wants that as byte offsets plus row/column
//! points for the old and new boundaries. The point-snapshot convention is
//! deliberate and uniform: the start and old-end points are computed against
//! the line metadata of the document as it existed *before* the edit, the
//! new-end point against the metadata *after* it — mixing the snapshots
//! silently produces wrong reuse decisions, not crashes.

use vstd::prelude::*;

use crate::engine::CoreError;

verus! {

/// A zero-based row/column position; the column counts bytes from the
/// line's first byte.
#[derive(Debug, Clone, Copy, PartialEq, Eq)]
pub struct Point {
    pub row: usize,
    pub column: usize,
}

/// An immutable description of one edit: the replaced interval
/// `[start, end)` in byte offsets over the old text, and the byte length of
/// the replacement. Produced by the host per edit, consumed once.
#[derive(Debug, Clone, Copy, PartialEq, Eq)]
pub struct TextDelta {
    pub start: usize,
    pub end: usize,
    pub new_length: usize,
}

/// The parser's edit model. Invariants: `start_byte <= old_end_byte` spans
/// the replaced pre-edit range, and `new_end_byte == start_byte + new_length`.
#[derive(Debug, Clone, Copy, PartialEq, Eq)]
pub struct TreeEdit {
    pub start_byte: usize,
    pub old_end_byte: usize,
    pub new_end_byte: usize,
    pub start_point: Point,
    pub old_end_point: Point,
    pub new_end_point: Point,
}

/// The invariant a translated edit carries.
pub open spec fn edit_wf(e: TreeEdit) -> bool {
    &&& e.start_byte <= e.old_end_byte
    &&& e.start_byte <= e.new_end_byte
}

/// Line-offset metadata of one document snapshot: the byte offset of each
/// line's first byte, in order, plus the total byte length of the text.
pub struct LineIndex {
    pub starts: Vec<usize>,
    pub text_len: usize,
}

/// The row of `off`: the greatest line whose first byte is at or before
/// `off`, found by scanning from the last line down.
pub open spec fn spec_row(starts: Seq<usize>, off: usize) -> int
    decreases starts.len(),
{
    if starts.len() <= 1 {
        0
    } else if starts[starts.len() - 1] <= off {
        starts.len() - 1
    } else {
        spec_row(starts.drop_last(), off)
    }
}

/// The row/column of a byte offset within one snapshot.
pub open spec fn spec_point(starts: Seq<usize>, off: usize) -> Point {
    (Point {
        row: spec_row(starts, off) as usize,
        column: (off - starts[spec_row(starts, off)]) as usize,
    })
}

impl LineIndex {
    /// Offsets name line starts: the first is zero, they strictly increase,
    /// and none lies past the end of the text.
    pub open spec fn wf(self) -> bool {
        &&& self.starts@.len() >= 1
        &&& self.starts@[0] == 0
        &&& (forall|i: int, j: int|
            #![trigger self.starts@[i], self.starts@[j]]
            0 <= i < j < self.starts@.len() ==> self.starts@[i] < self.starts@[j])
        &&& forall|i: int| 0 <= i < self.starts@.len() ==> #[trigger] self.starts@[i] <= self.text_len
    }

    /// Validates host-supplied line metadata; accepted exactly when the
    /// well-formedness invariant holds.
    pub fn from_starts(starts: Vec<usize>, text_len: usize) -> (r: Option<LineIndex>)
        ensures
            r is Some ==> r->Some_0.wf() && r->Some_0.starts@ == starts@ && r->Some_0.text_len
                == text_len,
            r is None ==> !(LineIndex { starts, text_len }).wf(),
    {
        if starts.len() == 0 {
            return None;
        }
        if starts[0] != 0 {
            return None;
        }
        let mut i: usize = 1;
        while i < starts.len()
            invariant
                1 <= i <= starts@.len(),
                starts@.len() >= 1,
                starts@[0] == 0,
                forall|a: int, b: int|
                    #![trigger starts@[a], starts@[b]]
                    0 <= a < b < i ==> starts@[a] < starts@[b],
                forall|a: int| 0 <= a < i ==> #[trigger] starts@[a] <= text_len,
            decreases starts@.len() - i,
        {
            if starts[i] <= starts[i - 1] {
                return None;
            }
            if starts[i] > text_len {
                return None;
            }
            proof {
                assert forall|a: int, b: int|
                    #![trigger starts@[a], starts@[b]]
                    0 <= a < b < i + 1 implies starts@[a] < starts@[b] by {
                    if b == i && a < i - 1 {
                        assert(starts@[a] < starts@[i - 1]);
                    }
                }
            }
            i = i + 1;
        }
        if starts[0] > text_len {
            return None;
        }
        Some(LineIndex { starts, text_len })
    }

    /// The row/column of a byte offset of this snapshot. The row is the
    /// greatest line starting at or before the offset; the column is the
    /// byte distance from that line's start.
    pub fn point_of_offset(&self, off: usize) -> (p: Point)
        requires
            self.wf(),
            off <= self.text_len,
        ensures
            p == spec_point(self.starts@, off),
            (p.row as int) < self.starts@.len(),
            self.starts@[p.row as int] <= off,
            p.column == off - self.starts@[p.row as int],
            forall|j: int| p.row < j < self.starts@.len() ==> off < #[trigger] self.starts@[j],
    {
        proof {
            lemma_spec_row(self.starts@, off);
            assert(self.starts@.take(self.starts@.len() as int) =~= self.starts@);
        }
        let mut i: usize = self.starts.len() - 1;
        while i > 0 && self.starts[i] > off
            invariant
                self.wf(),
                i < self.starts@.len(),
                spec_row(self.starts@, off) == spec_row(self.starts@.take(i + 1), off),
            decreases i,
        {
            proof {
                assert(self.starts@.take(i + 1).drop_last() =~= self.starts@.take(i as int));
                assert(self.starts@.take(i + 1)[i as int] == self.starts@[i as int]);
            }
            i = i - 1;
        }
        proof {
            let t = self.starts@.take(i + 1);
            if i == 0 {
                if t.len() > 1 {
                    assert(t[t.len() - 1] == self.starts@[i as int]);
                }
                assert(spec_row(t, off) == 0) by {
                    if t.len() > 1 {
                        lemma_spec_row_low(t, off);
                    }
                };
            } else {
                assert(t[t.len() - 1] == self.starts@[i as int]);
            }
        }
        Point { row: i, column: off - self.starts[i] }
    }
}

/// What `spec_row` picks is the greatest line start at or before the
/// offset.
pub proof fn lemma_spec_row(starts: Seq<usize>, off: usize)
    requires
        starts.len() >= 1,
        starts[0] == 0,
        forall|i: int, j: int|
            #![trigger starts[i], starts[j]]
            0 <= i < j < starts.len() ==> starts[i] < starts[j],
    ensures
        0 <= spec_row(starts, off) < starts.len(),
        starts[spec_row(starts, off)] <= off,
        forall|j: int| spec_row(starts, off) < j < starts.len() ==> off < #[trigger] starts[j],
    decreases starts.len(),
{
    if starts.len() == 1 {
    } else if starts[starts.len() - 1] <= off {
    } else {
        let t = starts.drop_last();
        assert(t.len() == starts.len() - 1);
        assert forall|i: int, j: int| #![trigger t[i], t[j]] 0 <= i < j < t.len() implies t[i]
            < t[j] by {
            assert(starts[i] < starts[j]);
        }
        lemma_spec_row(t, off);
        assert forall|j: int| spec_row(starts, off) < j < starts.len() implies off
            < #[trigger] starts[j] by {
            if j < starts.len() - 1 {
                assert(t[j] == starts[j]);
            }
        }
    }
}

/// When every line start past the first lies beyond the offset, the row is
/// the first line.
proof fn lemma_spec_row_low(starts: Seq<usize>, off: usize)
    requires
        starts.len() >= 1,
        forall|j: int| 1 <= j < starts.len() ==> off < #[trigger] starts[j],
    ensures
        spec_row(starts, off) == 0,
    decreases starts.len(),
{
    if starts.len() > 1 {
        lemma_spec_row_low(starts.drop_last(), off);
    }
}

/// A delta is consistent with the two snapshots: the replaced interval lies
/// within the old text, and the new text's length accounts for exactly the
/// replacement.
pub open spec fn delta_ok(d: TextDelta, before: LineIndex, after: LineIndex) -> bool {
    &&& d.start <= d.end
    &&& d.end <= before.text_len
    &&& after.text_len == before.text_len - (d.end - d.start) + d.new_length
}

/// The tree edit a consistent delta translates to.
pub open spec fn spec_translate(d: TextDelta, before: LineIndex, after: LineIndex) -> TreeEdit {
    (TreeEdit {
        start_byte: d.start,
        old_end_byte: d.end,
        new_end_byte: (d.start + d.new_length) as usize,
        start_point: spec_point(before.starts@, d.start),
        old_end_point: spec_point(before.starts@, d.end),
        new_end_point: spec_point(after.starts@, (d.start + d.new_length) as usize),
    })
}

/// Translates a text delta into the parser's edit model, validating it
/// against the line metadata of the document before the edit (for the start
/// and old-end points) and after it (for the new-end point). A delta whose
/// ranges do not fit those snapshots is rejected as a malformed edit and
/// translates to nothing.
pub fn translate_delta(delta: &TextDelta, before: &LineIndex, after: &LineIndex) -> (r: Result<
    TreeEdit,
    CoreError,
>)
    requires
        before.wf(),
        after.wf(),
    ensures
        r is Ok <==> delta_ok(*delta, *before, *after),
        r is Ok ==> r->Ok_0 == spec_translate(*delta, *before, *after) && edit_wf(r->Ok_0),
        r is Err ==> r == Err::<TreeEdit, CoreError>(CoreError::MalformedEdit),
{
    if delta.start > delta.end || delta.end > before.text_len {
        return Err(CoreError::MalformedEdit);
    }
    let removed = delta.end - delta.start;
    let base = before.text_len - removed;
    if after.text_len < base || after.text_len - base != delta.new_length {
        return Err(CoreError::MalformedEdit);
    }
    let new_end = delta.start + delta.new_length;
    let start_point = before.point_of_offset(delta.start);
    let old_end_point = before.point_of_offset(delta.end);
    let new_end_point = after.point_of_offset(new_end);
    Ok(
        TreeEdit {
            start_byte: delta.start,
            old_end_byte: delta.end,
            new_end_byte: new_end,
            start_point,
            old_end_point,
            new_end_point,
        },
    )
}

} // verus!
