use physics_engine::broad_phase::{GridCoord, UniformGridBroadPhase};
use physics_engine::collision::{
    collision_schedule, pair_check, schedule_candidates, select_test, NarrowPhaseTest, PairCheck,
};
use physics_engine::narrow_phase::{candidate_axes, select_contact_axis, CandidateAxis};
use physics_engine::narrow_phase::AxisResult::{self, Overlap, Separating, Skipped};
use physics_engine::rigid_body::BodyKind;
use physics_engine::rigid_body::CollisionShape::{self, Sphere, AABB, OBB};

fn body(shape: CollisionShape, is_static: bool) -> BodyKind {
    BodyKind { shape, is_static }
}

#[test]
fn every_shape_pair_has_its_test() {
    assert_eq!(select_test(Sphere, Sphere), Some(NarrowPhaseTest::SphereSphere));
    assert_eq!(select_test(AABB, AABB), Some(NarrowPhaseTest::AabbAabb));
    assert_eq!(select_test(OBB, OBB), Some(NarrowPhaseTest::ObbObb));
    assert_eq!(select_test(OBB, AABB), Some(NarrowPhaseTest::ObbAabb));
    assert_eq!(select_test(AABB, OBB), Some(NarrowPhaseTest::AabbObb));
    assert_eq!(select_test(Sphere, AABB), None);
    assert_eq!(select_test(AABB, Sphere), None);
    assert_eq!(select_test(Sphere, OBB), None);
    assert_eq!(select_test(OBB, Sphere), None);
}

#[test]
fn static_pairs_are_skipped() {
    let bodies = vec![
        body(CollisionShape::Sphere, true),
        body(CollisionShape::Sphere, true),
        body(CollisionShape::Sphere, false),
    ];
    assert_eq!(pair_check(&bodies, 0, 1), None);
    assert_eq!(
        pair_check(&bodies, 0, 2),
        Some(PairCheck { first: 0, second: 2, test: NarrowPhaseTest::SphereSphere })
    );
    assert_eq!(
        pair_check(&bodies, 2, 1),
        Some(PairCheck { first: 2, second: 1, test: NarrowPhaseTest::SphereSphere })
    );
    // Not two different bodies of the scene.
    assert_eq!(pair_check(&bodies, 2, 2), None);
    assert_eq!(pair_check(&bodies, 2, 3), None);
    assert_eq!(pair_check(&bodies, 3, 2), None);
}

#[test]
fn full_schedule_is_ordered_by_index() {
    let bodies = vec![
        body(CollisionShape::Sphere, false),
        body(CollisionShape::AABB, false),
        body(CollisionShape::Sphere, true),
        body(CollisionShape::OBB, false),
        body(CollisionShape::Sphere, true),
    ];
    assert_eq!(
        collision_schedule(&bodies),
        vec![
            PairCheck { first: 0, second: 2, test: NarrowPhaseTest::SphereSphere },
            PairCheck { first: 0, second: 4, test: NarrowPhaseTest::SphereSphere },
            PairCheck { first: 1, second: 3, test: NarrowPhaseTest::AabbObb },
        ]
    );
    assert!(collision_schedule(&[]).is_empty());
    assert!(collision_schedule(&bodies[..1]).is_empty());
}

#[test]
fn two_converging_boxes_are_scheduled_once() {
    let bodies = vec![body(CollisionShape::AABB, false), body(CollisionShape::AABB, false)];
    assert_eq!(
        collision_schedule(&bodies),
        vec![PairCheck { first: 0, second: 1, test: NarrowPhaseTest::AabbAabb }]
    );
}

#[test]
fn candidates_keep_their_order_and_orientation() {
    let bodies = vec![
        body(CollisionShape::AABB, true),
        body(CollisionShape::OBB, false),
        body(CollisionShape::Sphere, false),
        body(CollisionShape::AABB, true),
    ];
    let candidates = vec![(3, 1), (1, 0), (0, 3), (2, 1), (1, 1), (9, 0), (1, 3)];
    assert_eq!(
        schedule_candidates(&bodies, &candidates),
        vec![
            PairCheck { first: 3, second: 1, test: NarrowPhaseTest::AabbObb },
            PairCheck { first: 1, second: 0, test: NarrowPhaseTest::ObbAabb },
            PairCheck { first: 1, second: 3, test: NarrowPhaseTest::ObbAabb },
        ]
    );
    assert!(schedule_candidates(&bodies, &[]).is_empty());
}

#[test]
fn broad_phase_feeds_the_schedule() {
    let bodies = vec![
        body(CollisionShape::Sphere, false),
        body(CollisionShape::Sphere, false),
        body(CollisionShape::Sphere, false),
    ];
    let cells = vec![
        GridCoord { x: 0, y: 0, z: 0 },
        GridCoord { x: 1, y: 0, z: 0 },
        GridCoord { x: 8, y: 0, z: 0 },
    ];
    let mut grid = UniformGridBroadPhase::new();
    grid.update(&cells);
    let checks = schedule_candidates(&bodies, &grid.get_potential_pairs());
    assert_eq!(checks.len(), 1);
    assert_eq!(checks[0].test, NarrowPhaseTest::SphereSphere);
    assert_eq!(checks[0].first + checks[0].second, 1);
}

#[test]
fn least_overlap_wins_and_the_first_breaks_ties() {
    assert_eq!(select_contact_axis(&[Overlap(5), Overlap(3), Overlap(9)]), Some(1));
    assert_eq!(select_contact_axis(&[Overlap(4), Overlap(4), Overlap(4)]), Some(0));
    assert_eq!(select_contact_axis(&[Overlap(7), Overlap(2), Overlap(2)]), Some(1));
    assert_eq!(select_contact_axis(&[Skipped, Overlap(7), Skipped, Overlap(6)]), Some(3));
    assert_eq!(select_contact_axis(&[Overlap(0)]), Some(0));
    assert_eq!(select_contact_axis(&[Overlap(u32::MAX), Overlap(u32::MAX - 1)]), Some(1));
    assert_eq!(select_contact_axis(&[Overlap(1), Separating, Overlap(0)]), None);
    assert_eq!(select_contact_axis(&[Separating]), None);
    assert_eq!(select_contact_axis(&[Skipped, Skipped]), None);
    assert_eq!(select_contact_axis(&[]), None);
}

#[test]
fn separated_boxes_stay_separated_when_asked_twice() {
    let axes = [Overlap(1_065_353_216), Separating, Overlap(1_073_741_824)];
    assert_eq!(select_contact_axis(&axes), None);
    assert_eq!(select_contact_axis(&axes), None);
}

#[test]
fn float_overlaps_rank_by_their_bits() {
    // Positive floats keep their order when read as unsigned integers.
    let overlaps: [f32; 3] = [1.5, 0.25, 2.0];
    let axes: Vec<AxisResult> =
        overlaps.iter().map(|o| AxisResult::Overlap(o.to_bits())).collect();
    assert_eq!(select_contact_axis(&axes), Some(1));
}

#[test]
fn fifteen_candidate_axes_in_testing_order() {
    let axes = candidate_axes();
    assert_eq!(axes.len(), 15);
    assert_eq!(axes[0], CandidateAxis::FirstFace(0));
    assert_eq!(axes[2], CandidateAxis::FirstFace(2));
    assert_eq!(axes[3], CandidateAxis::SecondFace(0));
    assert_eq!(axes[5], CandidateAxis::SecondFace(2));
    assert_eq!(axes[6], CandidateAxis::EdgePair(0, 0));
    assert_eq!(axes[7], CandidateAxis::EdgePair(0, 1));
    assert_eq!(axes[9], CandidateAxis::EdgePair(1, 0));
    assert_eq!(axes[14], CandidateAxis::EdgePair(2, 2));
    for (t, axis) in axes.iter().enumerate() {
        assert_eq!(axes.iter().position(|other| other == axis), Some(t));
    }
}
