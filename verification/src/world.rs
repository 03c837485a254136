//! The scene: which bodies exist, of what kind, and which joints tie them.
//!
//! Bodies are addressed by the index they were added under, which never
//! changes while the world lives. A joint is accepted only if every body it
//! refers to exists, so no step ever meets a handle without a body.

use vstd::prelude::*;
use crate::collision::{collision_schedule, is_full_schedule, spec_pair_check, PairCheck};
use crate::constraints::{ConstraintLink, SolveStage};
use crate::rigid_body::BodyKind;

verus! {

/// Why a change to the scene was rejected.
#[derive(Debug, Clone, Copy, PartialEq, Eq, Structural)]
pub enum WorldError {
    /// The handle names no body of the world.
    UnknownBody(usize),
}

/// One action of a simulation step.
#[derive(Debug, Clone, Copy, PartialEq, Eq, Structural)]
pub enum StepAction {
    /// Apply the force of gravity to this body.
    ApplyGravity(usize),
    /// Integrate this body over the time step and clear its accumulators.
    Integrate(usize),
    /// Run this stage of this joint.
    RunJoint(usize, SolveStage),
    /// Test this pair of bodies and resolve their contact, if any.
    Collide(PairCheck),
}

/// Gravity acts on the dynamic bodies, in the order of their handles.
pub open spec fn spec_gravity_actions(bodies: Seq<BodyKind>) -> Seq<StepAction>
    decreases bodies.len(),
{
    if bodies.len() == 0 {
        Seq::empty()
    } else {
        let earlier = spec_gravity_actions(bodies.drop_last());
        if bodies.last().is_static {
            earlier
        } else {
            earlier.push(StepAction::ApplyGravity((bodies.len() - 1) as usize))
        }
    }
}

/// Every body is integrated, static or not, in the order of the handles.
pub open spec fn spec_integrate_actions(count: nat) -> Seq<StepAction> {
    Seq::new(count, |i: int| StepAction::Integrate(i as usize))
}

/// The stages of a joint, numbered in their order.
pub open spec fn spec_stage(number: int) -> SolveStage {
    if number == 0 {
        SolveStage::PreSolve
    } else if number == 1 {
        SolveStage::Solve
    } else {
        SolveStage::PostSolve
    }
}

/// Every joint goes through its three stages once, one joint after the
/// other in the order in which they were added.
pub open spec fn spec_joint_actions(count: nat) -> Seq<StepAction> {
    Seq::new(3 * count, |t: int| StepAction::RunJoint((t / 3) as usize, spec_stage(t % 3)))
}

/// What a step does before it turns to collisions: gravity, integration,
/// joints.
pub open spec fn spec_motion_actions(bodies: Seq<BodyKind>, joints: nat) -> Seq<StepAction> {
    spec_gravity_actions(bodies) + spec_integrate_actions(bodies.len()) + spec_joint_actions(
        joints,
    )
}

/// `plan` is one simulation step of a world with these bodies and this many
/// joints: gravity on the dynamic bodies, then the integration of every
/// body, then every joint's stages, then the collision pass over all pairs.
pub open spec fn is_step_plan(plan: Seq<StepAction>, bodies: Seq<BodyKind>, joints: nat) -> bool {
    let motion = spec_motion_actions(bodies, joints);
    &&& plan.len() >= motion.len()
    &&& plan.subrange(0, motion.len() as int) == motion
    &&& forall|t: int| motion.len() <= t < plan.len() ==> (#[trigger] plan[t]) is Collide
    &&& is_full_schedule(
        Seq::new(
            (plan.len() - motion.len()) as nat,
            |t: int| plan[motion.len() + t]->Collide_0,
        ),
        bodies,
    )
}

/// Gravity acts on bodies of the world only, and on no static one.
pub proof fn lemma_gravity_spares_static_bodies(bodies: Seq<BodyKind>, t: int)
    requires
        0 <= t < spec_gravity_actions(bodies).len(),
        bodies.len() <= usize::MAX,
    ensures
        spec_gravity_actions(bodies).len() <= bodies.len(),
        spec_gravity_actions(bodies)[t] is ApplyGravity,
        spec_gravity_actions(bodies)[t]->ApplyGravity_0 < bodies.len(),
        !bodies[spec_gravity_actions(bodies)[t]->ApplyGravity_0 as int].is_static,
    decreases bodies.len(),
{
    let earlier = spec_gravity_actions(bodies.drop_last());
    lemma_gravity_actions_bounded(bodies.drop_last());
    if t < earlier.len() {
        lemma_gravity_spares_static_bodies(bodies.drop_last(), t);
    }
}

/// There are no more gravity actions than bodies.
proof fn lemma_gravity_actions_bounded(bodies: Seq<BodyKind>)
    ensures
        spec_gravity_actions(bodies).len() <= bodies.len(),
    decreases bodies.len(),
{
    if bodies.len() > 0 {
        lemma_gravity_actions_bounded(bodies.drop_last());
    }
}

/// Every action of a step refers to bodies and joints of the world. Gravity
/// acts on dynamic bodies only, and no pair of two static bodies is tested
/// for contact.
pub proof fn lemma_step_actions_in_range(
    plan: Seq<StepAction>,
    bodies: Seq<BodyKind>,
    joints: nat,
    t: int,
)
    requires
        is_step_plan(plan, bodies, joints),
        bodies.len() <= usize::MAX,
        0 <= t < plan.len(),
    ensures
        match plan[t] {
            StepAction::ApplyGravity(body) => body < bodies.len() && !bodies[body as int].is_static,
            StepAction::Integrate(body) => body < bodies.len(),
            StepAction::RunJoint(joint, stage) => joint < joints,
            StepAction::Collide(check) => spec_pair_check(
                bodies,
                check.first as int,
                check.second as int,
            ) == Some(check) && !(bodies[check.first as int].is_static
                && bodies[check.second as int].is_static),
        },
{
    let forces = spec_gravity_actions(bodies);
    let moves = spec_integrate_actions(bodies.len());
    let solves = spec_joint_actions(joints);
    let motion = spec_motion_actions(bodies, joints);
    lemma_gravity_actions_bounded(bodies);
    if t < motion.len() {
        assert(plan[t] == plan.subrange(0, motion.len() as int)[t]);
        if t < forces.len() {
            lemma_gravity_spares_static_bodies(bodies, t);
            assert(motion[t] == forces[t]);
        } else if t < forces.len() + moves.len() {
            assert(motion[t] == moves[t - forces.len()]);
        } else {
            assert(motion[t] == solves[t - forces.len() - moves.len()]);
        }
    } else {
        let tail = Seq::new(
            (plan.len() - motion.len()) as nat,
            |u: int| plan[motion.len() + u]->Collide_0,
        );
        assert(plan[t] is Collide);
        assert(tail[t - motion.len()] == plan[t]->Collide_0);
    }
}

/// Manages a collection of bodies and joints.
pub struct PhysicsWorld {
    bodies: Vec<BodyKind>,
    constraints: Vec<ConstraintLink>,
}

impl PhysicsWorld {
    /// The bodies of the world, by handle.
    pub closed spec fn spec_bodies(self) -> Seq<BodyKind> {
        self.bodies@
    }

    /// The joints of the world, in the order in which they are solved.
    pub closed spec fn spec_constraints(self) -> Seq<ConstraintLink> {
        self.constraints@
    }

    /// Every joint of the world refers to bodies of the world only.
    pub open spec fn wf(self) -> bool {
        forall|i: int|
            0 <= i < self.spec_constraints().len() ==> (
            #[trigger] self.spec_constraints()[i]).spec_is_attached(
                self.spec_bodies().len() as int,
            )
    }

    /// Creates an empty world.
    pub fn new() -> (world: PhysicsWorld)
        ensures
            world.wf(),
            world.spec_bodies() == Seq::<BodyKind>::empty(),
            world.spec_constraints() == Seq::<ConstraintLink>::empty(),
    {
        PhysicsWorld { bodies: Vec::new(), constraints: Vec::new() }
    }

    /// Adds a body to the simulation and returns its handle.
    pub fn add_body(&mut self, body: BodyKind) -> (handle: usize)
        requires
            old(self).wf(),
        ensures
            final(self).wf(),
            handle == old(self).spec_bodies().len(),
            final(self).spec_bodies() == old(self).spec_bodies().push(body),
            final(self).spec_constraints() == old(self).spec_constraints(),
    {
        let handle = self.bodies.len();
        self.bodies.push(body);
        proof {
            assert forall|i: int| 0 <= i < self.spec_constraints().len() implies (
            #[trigger] self.spec_constraints()[i]).spec_is_attached(
                self.spec_bodies().len() as int,
            ) by {
                assert(old(self).spec_constraints()[i].spec_is_attached(handle as int));
            }
        }
        handle
    }

    /// Replaces the description of the body under `handle`, as after a change
    /// of its mass or shape.
    pub fn set_body(&mut self, handle: usize, body: BodyKind) -> (done: Result<(), WorldError>)
        requires
            old(self).wf(),
        ensures
            final(self).wf(),
            final(self).spec_constraints() == old(self).spec_constraints(),
            handle < old(self).spec_bodies().len() ==> done == Ok::<(), WorldError>(())
                && final(self).spec_bodies() == old(self).spec_bodies().update(handle as int, body),
            handle >= old(self).spec_bodies().len() ==> done == Err::<(), WorldError>(
                WorldError::UnknownBody(handle),
            ) && final(self).spec_bodies() == old(self).spec_bodies(),
    {
        if handle < self.bodies.len() {
            self.bodies[handle] = body;
            proof {
                assert(self.spec_bodies() =~= old(self).spec_bodies().update(handle as int, body));
                assert forall|i: int| 0 <= i < self.spec_constraints().len() implies (
                #[trigger] self.spec_constraints()[i]).spec_is_attached(
                    self.spec_bodies().len() as int,
                ) by {
                    assert(old(self).spec_constraints()[i].spec_is_attached(
                        old(self).spec_bodies().len() as int,
                    ));
                }
            }
            Ok(())
        } else {
            Err(WorldError::UnknownBody(handle))
        }
    }

    /// Adds a joint to the simulation and returns its place in the solving
    /// order. A joint that refers to a body the world does not hold is
    /// rejected, with the first such handle, and the world stays as it was.
    pub fn add_constraint(&mut self, constraint: ConstraintLink) -> (added: Result<
        usize,
        WorldError,
    >)
        requires
            old(self).wf(),
        ensures
            final(self).wf(),
            final(self).spec_bodies() == old(self).spec_bodies(),
            match constraint.spec_dangling(old(self).spec_bodies().len() as int) {
                None => added == Ok::<usize, WorldError>(old(self).spec_constraints().len() as usize)
                    && final(self).spec_constraints() == old(self).spec_constraints().push(
                    constraint,
                ),
                Some(handle) => added == Err::<usize, WorldError>(WorldError::UnknownBody(handle))
                    && final(self).spec_constraints() == old(self).spec_constraints(),
            },
    {
        match constraint.dangling(self.bodies.len()) {
            Some(handle) => Err(WorldError::UnknownBody(handle)),
            None => {
                let place = self.constraints.len();
                self.constraints.push(constraint);
                proof {
                    assert forall|i: int| 0 <= i < self.spec_constraints().len() implies (
                    #[trigger] self.spec_constraints()[i]).spec_is_attached(
                        self.spec_bodies().len() as int,
                    ) by {
                        if i < place {
                            assert(old(self).spec_constraints()[i].spec_is_attached(
                                old(self).spec_bodies().len() as int,
                            ));
                        }
                    }
                }
                Ok(place)
            },
        }
    }

    /// Clears all bodies and joints from the simulation.
    pub fn clear(&mut self)
        ensures
            final(self).wf(),
            final(self).spec_bodies() == Seq::<BodyKind>::empty(),
            final(self).spec_constraints() == Seq::<ConstraintLink>::empty(),
    {
        self.bodies.clear();
        self.constraints.clear();
    }

    /// Gets the bodies in the simulation.
    pub fn bodies(&self) -> (bodies: &[BodyKind])
        ensures
            bodies@ == self.spec_bodies(),
    {
        self.bodies.as_slice()
    }

    /// Gets the joints in the simulation, in solving order.
    pub fn constraints(&self) -> (constraints: &[ConstraintLink])
        ensures
            constraints@ == self.spec_constraints(),
    {
        self.constraints.as_slice()
    }

    /// Draws up what a step does before it turns to collisions: gravity on
    /// the dynamic bodies, the integration of every body, every joint's
    /// stages. A caller that narrows the collision pass with a broad phase
    /// performs these actions, and then has the bodies' new positions to
    /// narrow with.
    pub fn motion(&self) -> (plan: Vec<StepAction>)
        ensures
            plan@ == spec_motion_actions(self.spec_bodies(), self.spec_constraints().len()),
    {
        let mut plan: Vec<StepAction> = Vec::new();
        let n = self.bodies.len();
        let m = self.constraints.len();

        let mut i: usize = 0;
        while i < n
            invariant
                n == self.bodies@.len(),
                i <= n,
                plan@ == spec_gravity_actions(self.bodies@.take(i as int)),
            decreases n - i,
        {
            proof {
                assert(self.bodies@.take(i + 1).drop_last() =~= self.bodies@.take(i as int));
            }
            if !self.bodies[i].is_static {
                plan.push(StepAction::ApplyGravity(i));
            }
            i = i + 1;
        }
        proof {
            assert(self.bodies@.take(n as int) =~= self.bodies@);
        }
        let ghost forces = plan@;

        let mut i: usize = 0;
        while i < n
            invariant
                i <= n,
                plan@ == forces + spec_integrate_actions(i as nat),
            decreases n - i,
        {
            plan.push(StepAction::Integrate(i));
            proof {
                assert(plan@ =~= forces + spec_integrate_actions((i + 1) as nat));
            }
            i = i + 1;
        }
        let ghost moved = plan@;

        let mut k: usize = 0;
        while k < m
            invariant
                k <= m,
                plan@ == moved + spec_joint_actions(k as nat),
            decreases m - k,
        {
            plan.push(StepAction::RunJoint(k, SolveStage::PreSolve));
            plan.push(StepAction::RunJoint(k, SolveStage::Solve));
            plan.push(StepAction::RunJoint(k, SolveStage::PostSolve));
            proof {
                assert(plan@ =~= moved + spec_joint_actions((k + 1) as nat));
            }
            k = k + 1;
        }
        plan
    }

    /// Draws up one simulation step: the actions to perform, in order, the
    /// collision pass over all pairs of bodies included. The world itself
    /// holds nothing that a step changes.
    pub fn step(&self) -> (plan: Vec<StepAction>)
        ensures
            is_step_plan(plan@, self.spec_bodies(), self.spec_constraints().len()),
    {
        let mut plan = self.motion();
        let ghost motion = plan@;
        proof {
            assert(plan@.subrange(0, motion.len() as int) =~= motion);
        }

        let checks = collision_schedule(self.bodies.as_slice());
        let mut t: usize = 0;
        while t < checks.len()
            invariant
                t <= checks.len(),
                plan@.len() == motion.len() + t,
                plan@.subrange(0, motion.len() as int) == motion,
                forall|u: int| 0 <= u < t ==> #[trigger] plan@[motion.len() + u] == StepAction::Collide(
                    checks@[u],
                ),
            decreases checks.len() - t,
        {
            let ghost earlier = plan@;
            plan.push(StepAction::Collide(checks[t]));
            proof {
                assert(plan@.subrange(0, motion.len() as int) =~= earlier.subrange(
                    0,
                    motion.len() as int,
                ));
                assert forall|u: int| 0 <= u < t + 1 implies #[trigger] plan@[motion.len() + u]
                    == StepAction::Collide(checks@[u]) by {
                    if u < t {
                        assert(plan@[motion.len() + u] == earlier[motion.len() + u]);
                    }
                }
            }
            t = t + 1;
        }
        proof {
            let tail = Seq::new(
                (plan@.len() - motion.len()) as nat,
                |u: int| plan@[motion.len() + u]->Collide_0,
            );
            assert(tail =~= checks@);
            assert forall|u: int| motion.len() <= u < plan@.len() implies (
            #[trigger] plan@[u]) is Collide by {
                assert(plan@[motion.len() + (u - motion.len())] == StepAction::Collide(
                    checks@[u - motion.len()],
                ));
            }
        }
        plan
    }
}

impl Default for PhysicsWorld {
    /// The same as [`PhysicsWorld::new`].
    fn default() -> (world: PhysicsWorld)
        ensures
            world.wf(),
            world.spec_bodies() == Seq::<BodyKind>::empty(),
            world.spec_constraints() == Seq::<ConstraintLink>::empty(),
    {
        PhysicsWorld::new()
    }
}

} // verus!
