//! The narrow-phase schedule of a step: which pairs of bodies are tested, in
//! which order, and with which shape test.
//!
//! The tests themselves and the impulses that resolve a contact are
//! numerical and live with the caller. What is decided here never changes
//! while contacts are resolved, since it depends on shape tags and on which
//! bodies are static only, so the whole schedule of a step can be drawn up
//! before the first test runs.

use vstd::prelude::*;
use crate::broad_phase::{are_neighbors, is_pairing_of, names, pair_listed, GridCoord};
use crate::rigid_body::{BodyKind, CollisionShape};

verus! {

/// The shape test that a pair of bodies calls for. In every test the contact
/// normal is reported from the first body of the pair towards the second.
#[derive(Debug, Clone, Copy, PartialEq, Eq, Structural)]
pub enum NarrowPhaseTest {
    /// Distance between centres against the sum of the radii.
    SphereSphere,
    /// Per-axis overlap of two axis-aligned boxes.
    AabbAabb,
    /// Separating-axis test of two oriented boxes.
    ObbObb,
    /// Separating-axis test, the first body being the oriented box and the
    /// second the axis-aligned one.
    ObbAabb,
    /// Separating-axis test, the first body being the axis-aligned box and
    /// the second the oriented one.
    AabbObb,
}

/// One entry of a schedule: the two bodies, by index, and their test.
#[derive(Debug, Clone, Copy, PartialEq, Eq, Structural)]
pub struct PairCheck {
    pub first: usize,
    pub second: usize,
    pub test: NarrowPhaseTest,
}

/// The test for two shapes, the first body's shape given first. A sphere
/// against a box has no test.
pub open spec fn spec_select_test(a: CollisionShape, b: CollisionShape) -> Option<
    NarrowPhaseTest,
> {
    match (a, b) {
        (CollisionShape::Sphere, CollisionShape::Sphere) => Some(NarrowPhaseTest::SphereSphere),
        (CollisionShape::AABB, CollisionShape::AABB) => Some(NarrowPhaseTest::AabbAabb),
        (CollisionShape::OBB, CollisionShape::OBB) => Some(NarrowPhaseTest::ObbObb),
        (CollisionShape::OBB, CollisionShape::AABB) => Some(NarrowPhaseTest::ObbAabb),
        (CollisionShape::AABB, CollisionShape::OBB) => Some(NarrowPhaseTest::AabbObb),
        _ => None,
    }
}

/// The same test with the two bodies exchanged.
pub open spec fn spec_mirrored(test: NarrowPhaseTest) -> NarrowPhaseTest {
    match test {
        NarrowPhaseTest::ObbAabb => NarrowPhaseTest::AabbObb,
        NarrowPhaseTest::AabbObb => NarrowPhaseTest::ObbAabb,
        other => other,
    }
}

/// What a step does with the bodies `a` and `b`: nothing if they are not two
/// different bodies of the scene, if both are static, or if their shapes have
/// no test; else the test for their shapes.
pub open spec fn spec_pair_check(bodies: Seq<BodyKind>, a: int, b: int) -> Option<PairCheck> {
    if 0 <= a < bodies.len() && 0 <= b < bodies.len() && a != b && !(bodies[a].is_static
        && bodies[b].is_static) {
        match spec_select_test(bodies[a].shape, bodies[b].shape) {
            Some(test) => Some(PairCheck { first: a as usize, second: b as usize, test }),
            None => None,
        }
    } else {
        None
    }
}

/// The checks that a list of candidate pairs gives rise to: each candidate
/// in turn, those left out for which a step does nothing.
pub open spec fn spec_checks_for(bodies: Seq<BodyKind>, candidates: Seq<(usize, usize)>) -> Seq<
    PairCheck,
>
    decreases candidates.len(),
{
    if candidates.len() == 0 {
        Seq::empty()
    } else {
        let earlier = spec_checks_for(bodies, candidates.drop_last());
        let (a, b) = candidates.last();
        match spec_pair_check(bodies, a as int, b as int) {
            Some(check) => earlier.push(check),
            None => earlier,
        }
    }
}

/// `checks` is the schedule of a step that considers all pairs of bodies:
/// every pair of a lower and a higher index for which a step does something,
/// with its test, ordered by the lower index and then by the higher.
pub open spec fn is_full_schedule(checks: Seq<PairCheck>, bodies: Seq<BodyKind>) -> bool {
    &&& forall|t: int|
        0 <= t < checks.len() ==> {
            let c = #[trigger] checks[t];
            c.first < c.second && spec_pair_check(bodies, c.first as int, c.second as int) == Some(
                c,
            )
        }
    &&& forall|t: int, u: int|
        0 <= t < u < checks.len() ==> {
            let c = #[trigger] checks[t];
            let d = #[trigger] checks[u];
            c.first < d.first || (c.first == d.first && c.second < d.second)
        }
    &&& forall|a: int, b: int|
        0 <= a < b && (#[trigger] spec_pair_check(bodies, a, b)).is_some() ==> checks.contains(
            spec_pair_check(bodies, a, b).unwrap(),
        )
}

/// Selects the shape test for two bodies from their shape tags.
pub fn select_test(a: CollisionShape, b: CollisionShape) -> (test: Option<NarrowPhaseTest>)
    ensures
        test == spec_select_test(a, b),
{
    match (a, b) {
        (CollisionShape::Sphere, CollisionShape::Sphere) => Some(NarrowPhaseTest::SphereSphere),
        (CollisionShape::AABB, CollisionShape::AABB) => Some(NarrowPhaseTest::AabbAabb),
        (CollisionShape::OBB, CollisionShape::OBB) => Some(NarrowPhaseTest::ObbObb),
        (CollisionShape::OBB, CollisionShape::AABB) => Some(NarrowPhaseTest::ObbAabb),
        (CollisionShape::AABB, CollisionShape::OBB) => Some(NarrowPhaseTest::AabbObb),
        _ => None,
    }
}

/// Decides what a step does with the bodies `a` and `b`. Static-static pairs
/// are skipped outright, so that no impulse is ever computed with a total
/// inverse mass of zero.
pub fn pair_check(bodies: &[BodyKind], a: usize, b: usize) -> (check: Option<PairCheck>)
    ensures
        check == spec_pair_check(bodies@, a as int, b as int),
{
    if a >= bodies.len() || b >= bodies.len() || a == b {
        return None;
    }
    if bodies[a].is_static && bodies[b].is_static {
        return None;
    }
    match select_test(bodies[a].shape, bodies[b].shape) {
        Some(test) => Some(PairCheck { first: a, second: b, test }),
        None => None,
    }
}

/// Draws up the schedule of a step that considers all pairs of bodies.
pub fn collision_schedule(bodies: &[BodyKind]) -> (checks: Vec<PairCheck>)
    ensures
        is_full_schedule(checks@, bodies@),
{
    let n = bodies.len();
    let mut checks: Vec<PairCheck> = Vec::new();
    let mut i: usize = 0;
    while i < n
        invariant
            n == bodies@.len(),
            i <= n,
            scheduled_up_to(checks@, bodies@, i as int, 0),
        decreases n - i,
    {
        let mut j: usize = i + 1;
        while j < n
            invariant
                n == bodies@.len(),
                i < j <= n,
                scheduled_up_to(checks@, bodies@, i as int, j as int),
            decreases n - j,
        {
            let ghost earlier = checks@;
            match pair_check(bodies, i, j) {
                Some(check) => {
                    checks.push(check);
                    proof {
                        assert(checks@[earlier.len() as int] == check);
                        assert forall|a: int, b: int|
                            0 <= a < b && (a < i || (a == i && b < j + 1)) && (
                            #[trigger] spec_pair_check(bodies@, a, b)).is_some()
                            implies checks@.contains(spec_pair_check(bodies@, a, b).unwrap()) by {
                            if a == i && b == j {
                            } else {
                                let c = spec_pair_check(bodies@, a, b).unwrap();
                                assert(earlier.contains(c));
                                let t = choose|t: int| 0 <= t < earlier.len() && earlier[t] == c;
                                assert(checks@[t] == c);
                            }
                        }
                    }
                },
                None => {},
            }
            j = j + 1;
        }
        i = i + 1;
    }
    checks
}

/// `checks` is the part of the full schedule that comes before the pair
/// `(i, j)`.
spec fn scheduled_up_to(checks: Seq<PairCheck>, bodies: Seq<BodyKind>, i: int, j: int) -> bool {
    &&& forall|t: int|
        0 <= t < checks.len() ==> {
            let c = #[trigger] checks[t];
            &&& c.first < c.second
            &&& c.first < i || (c.first == i && c.second < j)
            &&& spec_pair_check(bodies, c.first as int, c.second as int) == Some(c)
        }
    &&& forall|t: int, u: int|
        0 <= t < u < checks.len() ==> {
            let c = #[trigger] checks[t];
            let d = #[trigger] checks[u];
            c.first < d.first || (c.first == d.first && c.second < d.second)
        }
    &&& forall|a: int, b: int|
        0 <= a < b && (a < i || (a == i && b < j)) && (#[trigger] spec_pair_check(
            bodies,
            a,
            b,
        )).is_some() ==> checks.contains(spec_pair_check(bodies, a, b).unwrap())
}

/// Draws up the schedule of a step from the candidate pairs of a broad
/// phase, in the order in which they are given. The first body of a
/// candidate stays the first body of its check.
pub fn schedule_candidates(bodies: &[BodyKind], candidates: &[(usize, usize)]) -> (checks: Vec<
    PairCheck,
>)
    ensures
        checks@ == spec_checks_for(bodies@, candidates@),
{
    let n = candidates.len();
    let mut checks: Vec<PairCheck> = Vec::new();
    let mut t: usize = 0;
    while t < n
        invariant
            n == candidates@.len(),
            t <= n,
            checks@ == spec_checks_for(bodies@, candidates@.take(t as int)),
        decreases n - t,
    {
        let (a, b) = candidates[t];
        proof {
            assert(candidates@.take(t + 1).drop_last() =~= candidates@.take(t as int));
            assert(candidates@.take(t + 1).last() == candidates@[t as int]);
        }
        match pair_check(bodies, a, b) {
            Some(check) => {
                checks.push(check);
            },
            None => {},
        }
        t = t + 1;
    }
    assert(candidates@.take(n as int) =~= candidates@);
    checks
}

/// Exchanging the two bodies of a pair exchanges the bodies of its check and
/// mirrors its test; a step does something with the one order exactly when
/// it does with the other.
pub proof fn lemma_pair_check_mirrored(bodies: Seq<BodyKind>, a: int, b: int)
    ensures
        spec_pair_check(bodies, b, a) == match spec_pair_check(bodies, a, b) {
            Some(c) => Some(
                PairCheck { first: c.second, second: c.first, test: spec_mirrored(c.test) },
            ),
            None => None,
        },
{
}

/// No check of a schedule is for two static bodies, and each is for two
/// different bodies of the scene.
pub proof fn lemma_checks_move_something(bodies: Seq<BodyKind>, a: int, b: int)
    requires
        spec_pair_check(bodies, a, b).is_some(),
    ensures
        0 <= a < bodies.len(),
        0 <= b < bodies.len(),
        a != b,
        !bodies[a].is_static || !bodies[b].is_static,
{
}

/// A candidate for which a step does something has its check in the
/// schedule drawn from the candidates.
pub proof fn lemma_candidate_is_scheduled(
    bodies: Seq<BodyKind>,
    candidates: Seq<(usize, usize)>,
    t: int,
)
    requires
        0 <= t < candidates.len(),
        spec_pair_check(bodies, candidates[t].0 as int, candidates[t].1 as int).is_some(),
    ensures
        spec_checks_for(bodies, candidates).contains(
            spec_pair_check(bodies, candidates[t].0 as int, candidates[t].1 as int).unwrap(),
        ),
    decreases candidates.len(),
{
    let check = spec_pair_check(bodies, candidates[t].0 as int, candidates[t].1 as int).unwrap();
    let earlier = spec_checks_for(bodies, candidates.drop_last());
    let all = spec_checks_for(bodies, candidates);
    if t == candidates.len() - 1 {
        assert(all == earlier.push(check));
        assert(all[earlier.len() as int] == check);
    } else {
        assert(candidates.drop_last()[t] == candidates[t]);
        lemma_candidate_is_scheduled(bodies, candidates.drop_last(), t);
        let at = choose|at: int| 0 <= at < earlier.len() && earlier[at] == check;
        assert(all[at] == check);
    }
}

/// Every check of the schedule drawn from a list of candidates is the check
/// of one of the candidates.
pub proof fn lemma_scheduled_is_candidate(
    bodies: Seq<BodyKind>,
    candidates: Seq<(usize, usize)>,
    at: int,
)
    requires
        0 <= at < spec_checks_for(bodies, candidates).len(),
    ensures
        exists|t: int|
            0 <= t < candidates.len() && spec_pair_check(
                bodies,
                (#[trigger] candidates[t]).0 as int,
                candidates[t].1 as int,
            ) == Some(spec_checks_for(bodies, candidates)[at]),
    decreases candidates.len(),
{
    let earlier = spec_checks_for(bodies, candidates.drop_last());
    let last = candidates.len() - 1;
    if at < earlier.len() {
        lemma_scheduled_is_candidate(bodies, candidates.drop_last(), at);
        let t = choose|t: int|
            0 <= t < candidates.drop_last().len() && spec_pair_check(
                bodies,
                (#[trigger] candidates.drop_last()[t]).0 as int,
                candidates.drop_last()[t].1 as int,
            ) == Some(earlier[at]);
        assert(candidates[t] == candidates.drop_last()[t]);
    } else {
        assert(spec_pair_check(bodies, candidates[last].0 as int, candidates[last].1 as int)
            == Some(spec_checks_for(bodies, candidates)[at]));
    }
}

/// Narrowing the pairs with a broad phase loses no contact between bodies in
/// neighbouring cells: a pair of such bodies for which a step does something
/// is checked by the schedule drawn from a broad-phase answer, in one order
/// of its bodies or in the other.
pub proof fn lemma_broad_phase_keeps_neighbors(
    bodies: Seq<BodyKind>,
    cells: Seq<GridCoord>,
    pairs: Seq<(usize, usize)>,
    a: int,
    b: int,
)
    requires
        cells.len() == bodies.len(),
        is_pairing_of(pairs, cells),
        spec_pair_check(bodies, a, b).is_some(),
        are_neighbors(cells[a], cells[b]),
    ensures
        spec_checks_for(bodies, pairs).contains(spec_pair_check(bodies, a, b).unwrap())
            || spec_checks_for(bodies, pairs).contains(spec_pair_check(bodies, b, a).unwrap()),
{
    lemma_pair_check_mirrored(bodies, a, b);
    assert(pair_listed(pairs, a, b));
    let t = choose|t: int| 0 <= t < pairs.len() && #[trigger] names(pairs, t, a, b);
    lemma_candidate_is_scheduled(bodies, pairs, t);
}

/// Up to any length, two full schedules of the same bodies agree entry by
/// entry.
proof fn lemma_full_schedules_agree(
    one: Seq<PairCheck>,
    other: Seq<PairCheck>,
    bodies: Seq<BodyKind>,
    t: int,
)
    requires
        is_full_schedule(one, bodies),
        is_full_schedule(other, bodies),
        0 <= t <= one.len(),
    ensures
        t <= other.len(),
        forall|u: int| 0 <= u < t ==> one[u] == other[u],
    decreases t,
{
    if t > 0 {
        lemma_full_schedules_agree(one, other, bodies, t - 1);
        let c = one[t - 1];
        assert(spec_pair_check(bodies, c.first as int, c.second as int) == Some(c));
        assert(other.contains(c));
        let at = choose|at: int| 0 <= at < other.len() && other[at] == c;
        if at < t - 1 {
            // `c` would occur in `one` twice.
            assert(one[at] == other[at]);
        }
        if at > t - 1 {
            // The entry of `other` that `c` jumped over is missing in `one`.
            let d = other[t - 1];
            assert(spec_pair_check(bodies, d.first as int, d.second as int) == Some(d));
            assert(one.contains(d));
            let back = choose|back: int| 0 <= back < one.len() && one[back] == d;
            if back < t - 1 {
                assert(one[back] == other[back]);
            }
        }
        assert(at == t - 1);
    }
}

/// The bodies of a scene have one full schedule only.
pub proof fn lemma_full_schedule_unique(
    one: Seq<PairCheck>,
    other: Seq<PairCheck>,
    bodies: Seq<BodyKind>,
)
    requires
        is_full_schedule(one, bodies),
        is_full_schedule(other, bodies),
    ensures
        one == other,
{
    lemma_full_schedules_agree(one, other, bodies, one.len() as int);
    lemma_full_schedules_agree(other, one, bodies, other.len() as int);
    assert(one =~= other);
}

} // verus!
