//! Counting the marked positions of a sequence of marks.

use vstd::prelude::*;

verus! {

/// Number of positions of `marks` that hold `true`.
pub open spec fn count_marked(marks: Seq<bool>) -> nat
    decreases marks.len(),
{
    if marks.len() == 0 {
        0
    } else {
        count_marked(marks.drop_last()) + if marks.last() {
            1nat
        } else {
            0nat
        }
    }
}

/// No more positions are marked than there are.
pub proof fn count_marked_bounded(marks: Seq<bool>)
    ensures
        count_marked(marks) <= marks.len(),
    decreases marks.len(),
{
    if marks.len() > 0 {
        count_marked_bounded(marks.drop_last());
    }
}

/// Where every position counts, every position is marked.
pub proof fn count_marked_full(marks: Seq<bool>)
    requires
        count_marked(marks) == marks.len(),
    ensures
        forall|i: int| 0 <= i < marks.len() ==> marks[i],
    decreases marks.len(),
{
    if marks.len() > 0 {
        let front = marks.drop_last();
        count_marked_bounded(front);
        count_marked_full(front);
        assert forall|i: int| 0 <= i < marks.len() implies marks[i] by {
            if i < front.len() {
                assert(front[i] == marks[i]);
            }
        }
    }
}

/// Where every position is marked, every position counts.
pub proof fn count_marked_all(marks: Seq<bool>)
    requires
        forall|i: int| 0 <= i < marks.len() ==> marks[i],
    ensures
        count_marked(marks) == marks.len(),
    decreases marks.len(),
{
    if marks.len() > 0 {
        let front = marks.drop_last();
        assert forall|i: int| 0 <= i < front.len() implies front[i] by {
            assert(front[i] == marks[i]);
        }
        count_marked_all(front);
    }
}

/// Where nothing is marked, the count is zero.
pub proof fn count_marked_none(marks: Seq<bool>)
    requires
        forall|i: int| 0 <= i < marks.len() ==> !marks[i],
    ensures
        count_marked(marks) == 0,
    decreases marks.len(),
{
    if marks.len() > 0 {
        let front = marks.drop_last();
        assert forall|i: int| 0 <= i < front.len() implies !front[i] by {
            assert(front[i] == marks[i]);
        }
        count_marked_none(front);
    }
}

/// Marking one more position raises the count by one.
pub proof fn count_marked_grows(marks: Seq<bool>, i: int)
    requires
        0 <= i < marks.len(),
        !marks[i],
    ensures
        count_marked(marks.update(i, true)) == count_marked(marks) + 1,
    decreases marks.len(),
{
    let after = marks.update(i, true);
    if i == marks.len() - 1 {
        assert(after.drop_last() =~= marks.drop_last());
    } else {
        assert(after.drop_last() =~= marks.drop_last().update(i, true));
        count_marked_grows(marks.drop_last(), i);
    }
}

} // verus!
