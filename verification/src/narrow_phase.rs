//! Choosing the contact axis of a separating-axis test.
//!
//! A box-box test projects both shapes on a list of candidate axes: three
//! for two axis-aligned boxes, fifteen for oriented ones. The caller does the
//! projections and reports, per axis, what it found; this module decides
//! whether the shapes touch and along which axis they are pushed apart.

use vstd::prelude::*;

verus! {

/// A candidate axis of the separating-axis test of two boxes. Each box has
/// three axes of its own, numbered 0, 1 and 2.
#[derive(Debug, Clone, Copy, PartialEq, Eq, Structural)]
pub enum CandidateAxis {
    /// An axis of the first box.
    FirstFace(usize),
    /// An axis of the second box.
    SecondFace(usize),
    /// The cross product of an axis of the first box and an axis of the
    /// second, in this order.
    EdgePair(usize, usize),
}

/// The candidate axes of two boxes, numbered in the order in which they are
/// tested: the three axes of the first box, the three of the second, and the
/// nine cross products, those of the first box's axis 0 first.
pub open spec fn spec_candidate_axis(t: int) -> CandidateAxis {
    if t < 3 {
        CandidateAxis::FirstFace(t as usize)
    } else if t < 6 {
        CandidateAxis::SecondFace((t - 3) as usize)
    } else {
        CandidateAxis::EdgePair(((t - 6) / 3) as usize, ((t - 6) % 3) as usize)
    }
}

/// Lists the fifteen candidate axes of two boxes in testing order.
pub fn candidate_axes() -> (axes: Vec<CandidateAxis>)
    ensures
        axes@.len() == 15,
        forall|t: int| 0 <= t < 15 ==> #[trigger] axes@[t] == spec_candidate_axis(t),
{
    let mut axes: Vec<CandidateAxis> = Vec::with_capacity(15);
    let mut i: usize = 0;
    while i < 3
        invariant
            i <= 3,
            axes@.len() == i,
            forall|t: int| 0 <= t < i ==> #[trigger] axes@[t] == spec_candidate_axis(t),
        decreases 3 - i,
    {
        axes.push(CandidateAxis::FirstFace(i));
        i = i + 1;
    }
    let mut j: usize = 0;
    while j < 3
        invariant
            j <= 3,
            axes@.len() == 3 + j,
            forall|t: int| 0 <= t < 3 + j ==> #[trigger] axes@[t] == spec_candidate_axis(t),
        decreases 3 - j,
    {
        axes.push(CandidateAxis::SecondFace(j));
        j = j + 1;
    }
    let mut i: usize = 0;
    while i < 3
        invariant
            i <= 3,
            axes@.len() == 6 + 3 * i,
            forall|t: int| 0 <= t < 6 + 3 * i ==> #[trigger] axes@[t] == spec_candidate_axis(t),
        decreases 3 - i,
    {
        let mut j: usize = 0;
        while j < 3
            invariant
                i < 3,
                j <= 3,
                axes@.len() == 6 + 3 * i + j,
                forall|t: int|
                    0 <= t < 6 + 3 * i + j ==> #[trigger] axes@[t] == spec_candidate_axis(t),
            decreases 3 - j,
        {
            axes.push(CandidateAxis::EdgePair(i, j));
            j = j + 1;
        }
        i = i + 1;
    }
    axes
}

/// Every axis of either box, and every pair of one axis of each, is among
/// the fifteen candidate axes.
pub proof fn lemma_candidate_axis_listed(axis: CandidateAxis)
    requires
        match axis {
            CandidateAxis::FirstFace(i) => i < 3,
            CandidateAxis::SecondFace(j) => j < 3,
            CandidateAxis::EdgePair(i, j) => i < 3 && j < 3,
        },
    ensures
        exists|t: int| 0 <= t < 15 && #[trigger] spec_candidate_axis(t) == axis,
{
    match axis {
        CandidateAxis::FirstFace(i) => {
            assert(spec_candidate_axis(i as int) == axis);
        },
        CandidateAxis::SecondFace(j) => {
            assert(spec_candidate_axis(3 + j) == axis);
        },
        CandidateAxis::EdgePair(i, j) => {
            assert(spec_candidate_axis(6 + 3 * i + j) == axis);
        },
    }
}

/// No candidate axis is listed twice.
pub proof fn lemma_candidate_axes_distinct(t: int, u: int)
    requires
        0 <= t < u < 15,
    ensures
        spec_candidate_axis(t) != spec_candidate_axis(u),
{
}

/// What the projection of two shapes on one candidate axis showed.
#[derive(Debug, Clone, Copy, PartialEq, Eq, Structural)]
pub enum AxisResult {
    /// The axis is degenerate (the cross product of two near-parallel
    /// edges): it says nothing either way and is passed over.
    Skipped,
    /// The projections do not overlap by a positive length: the shapes are
    /// apart.
    Separating,
    /// The projections overlap by a positive length. The number ranks the
    /// length: of two overlaps the deeper one has the larger rank, and equal
    /// lengths have equal ranks.
    Overlap(u32),
}

/// Some axis of the list separates the shapes.
pub open spec fn has_separating_axis(axes: Seq<AxisResult>) -> bool {
    exists|i: int| 0 <= i < axes.len() && #[trigger] axes[i] == AxisResult::Separating
}

/// Some axis of the list shows an overlap.
pub open spec fn has_overlap(axes: Seq<AxisResult>) -> bool {
    exists|i: int| 0 <= i < axes.len() && (#[trigger] axes[i]) is Overlap
}

/// Axis `k` shows the least overlap of the list, and is the first to do so.
pub open spec fn is_least_overlap(axes: Seq<AxisResult>, k: int) -> bool {
    &&& 0 <= k < axes.len()
    &&& axes[k] is Overlap
    &&& forall|j: int|
        0 <= j < axes.len() && (#[trigger] axes[j]) is Overlap ==> {
            &&& axes[k]->Overlap_0 <= axes[j]->Overlap_0
            &&& j < k ==> axes[k]->Overlap_0 < axes[j]->Overlap_0
        }
}

/// The outcome of a separating-axis test: no contact if some axis separates
/// the shapes or if no axis was tested at all, else contact along the first
/// axis of least overlap.
pub open spec fn is_contact_axis(axes: Seq<AxisResult>, choice: Option<usize>) -> bool {
    match choice {
        Some(k) => !has_separating_axis(axes) && is_least_overlap(axes, k as int),
        None => has_separating_axis(axes) || !has_overlap(axes),
    }
}

/// A list of axis results has one outcome only.
pub proof fn lemma_contact_axis_unique(
    axes: Seq<AxisResult>,
    first: Option<usize>,
    second: Option<usize>,
)
    requires
        is_contact_axis(axes, first),
        is_contact_axis(axes, second),
    ensures
        first == second,
{
    match (first, second) {
        (Some(k), Some(m)) => {
            assert(axes[k as int] is Overlap);
            assert(axes[m as int] is Overlap);
        },
        (Some(k), None) => {
            assert(axes[k as int] is Overlap);
        },
        (None, Some(m)) => {
            assert(axes[m as int] is Overlap);
        },
        (None, None) => {},
    }
}

/// Decides a separating-axis test from the results of its axes.
pub fn select_contact_axis(axes: &[AxisResult]) -> (choice: Option<usize>)
    ensures
        is_contact_axis(axes@, choice),
{
    let n = axes.len();
    let mut best: Option<usize> = None;
    let mut least: u32 = 0;
    let mut i: usize = 0;
    while i < n
        invariant
            n == axes@.len(),
            i <= n,
            forall|j: int| 0 <= j < i ==> #[trigger] axes@[j] != AxisResult::Separating,
            match best {
                Some(k) => k < i && is_least_overlap(axes@.take(i as int), k as int) && axes@[k as int]
                    == AxisResult::Overlap(least),
                None => forall|j: int| 0 <= j < i ==> !((#[trigger] axes@[j]) is Overlap),
            },
        decreases n - i,
    {
        match axes[i] {
            AxisResult::Skipped => {},
            AxisResult::Separating => {
                return None;
            },
            AxisResult::Overlap(depth) => {
                if best.is_none() || depth < least {
                    best = Some(i);
                    least = depth;
                }
            },
        }
        proof {
            let grown = axes@.take(i + 1);
            match best {
                Some(k) => {
                    assert forall|j: int| 0 <= j < grown.len() && (#[trigger] grown[j]) is Overlap implies {
                        &&& grown[k as int]->Overlap_0 <= grown[j]->Overlap_0
                        &&& j < k ==> grown[k as int]->Overlap_0 < grown[j]->Overlap_0
                    } by {
                        if j < i {
                            assert(axes@.take(i as int)[j] is Overlap);
                        }
                    }
                },
                None => {},
            }
        }
        i = i + 1;
    }
    proof {
        assert(axes@.take(n as int) =~= axes@);
    }
    best
}

} // verus!
