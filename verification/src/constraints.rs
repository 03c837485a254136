//! Joints as seen by the scene: their type and the bodies they tie together.
//!
//! A joint refers to its bodies by their index in the world that owns them,
//! never by address, so a joint cannot dangle when the body list grows. The
//! geometry of a joint (pivots, axes, limits) and its impulses are numerical
//! and live with the caller.

use vstd::prelude::*;

verus! {

/// The joint types.
#[derive(Debug, Clone, Copy, PartialEq, Eq, Structural)]
pub enum JointKind {
    /// Ball joint: drives the distance between two pivot points to zero.
    PointToPoint,
    /// Revolute joint: a ball joint that also aligns a rotation axis.
    Hinge,
    /// Prismatic joint: aligns position along one axis and the axis itself.
    Slider,
    /// Rod: keeps two bodies at a target separation.
    Distance,
    /// Ball joint with clamped swing and twist angles.
    ConeTwist,
}

/// An error that a joint drives to zero with a corrective impulse.
#[derive(Debug, Clone, Copy, PartialEq, Eq, Structural)]
pub enum ErrorTerm {
    /// The distance between the two pivot points.
    Position,
    /// The misalignment of the two joint axes.
    AxisAlignment,
    /// The offset of the pivots along the first body's joint axis.
    AxisTranslation,
    /// The deviation of the pivots' distance from the target separation.
    Separation,
    /// The swing angle beyond the configured span.
    SwingLimit,
    /// The twist angle beyond the configured span.
    TwistLimit,
}

impl ErrorTerm {
    /// The term is corrected through angular velocity, weighted by inverse
    /// inertia; the others through linear velocity, weighted by inverse mass.
    pub open spec fn spec_is_angular(self) -> bool {
        self == ErrorTerm::AxisAlignment || self == ErrorTerm::SwingLimit || self
            == ErrorTerm::TwistLimit
    }

    /// Tells whether the term is corrected through angular velocity.
    pub fn is_angular(self) -> (angular: bool)
        ensures
            angular == self.spec_is_angular(),
    {
        match self {
            ErrorTerm::AxisAlignment | ErrorTerm::SwingLimit | ErrorTerm::TwistLimit => true,
            ErrorTerm::Position | ErrorTerm::AxisTranslation | ErrorTerm::Separation => false,
        }
    }
}

impl JointKind {
    /// The errors a joint of this type drives to zero, in the order in which
    /// its solve stage takes them.
    pub open spec fn spec_error_terms(self) -> Seq<ErrorTerm> {
        match self {
            JointKind::PointToPoint => seq![ErrorTerm::Position],
            JointKind::Hinge => seq![ErrorTerm::Position, ErrorTerm::AxisAlignment],
            JointKind::Slider => seq![
                ErrorTerm::Position,
                ErrorTerm::AxisAlignment,
                ErrorTerm::AxisTranslation,
            ],
            JointKind::Distance => seq![ErrorTerm::Separation],
            JointKind::ConeTwist => seq![
                ErrorTerm::Position,
                ErrorTerm::SwingLimit,
                ErrorTerm::TwistLimit,
            ],
        }
    }

    /// A joint of this type has a joint axis on each body.
    pub open spec fn spec_has_axes(self) -> bool {
        self == JointKind::Hinge || self == JointKind::Slider || self == JointKind::ConeTwist
    }

    /// Lists the errors a joint of this type drives to zero, in solving
    /// order.
    pub fn error_terms(self) -> (terms: Vec<ErrorTerm>)
        ensures
            terms@ == self.spec_error_terms(),
    {
        let mut terms: Vec<ErrorTerm> = Vec::new();
        match self {
            JointKind::PointToPoint => {
                terms.push(ErrorTerm::Position);
            },
            JointKind::Hinge => {
                terms.push(ErrorTerm::Position);
                terms.push(ErrorTerm::AxisAlignment);
            },
            JointKind::Slider => {
                terms.push(ErrorTerm::Position);
                terms.push(ErrorTerm::AxisAlignment);
                terms.push(ErrorTerm::AxisTranslation);
            },
            JointKind::Distance => {
                terms.push(ErrorTerm::Separation);
            },
            JointKind::ConeTwist => {
                terms.push(ErrorTerm::Position);
                terms.push(ErrorTerm::SwingLimit);
                terms.push(ErrorTerm::TwistLimit);
            },
        }
        assert(terms@ =~= self.spec_error_terms());
        terms
    }

    /// Tells whether a joint of this type has a joint axis on each body.
    pub fn has_axes(self) -> (axes: bool)
        ensures
            axes == self.spec_has_axes(),
    {
        match self {
            JointKind::Hinge | JointKind::Slider | JointKind::ConeTwist => true,
            JointKind::PointToPoint | JointKind::Distance => false,
        }
    }
}

/// Only joint types that have axes drive an error that is measured against
/// an axis.
pub proof fn lemma_axis_terms_need_axes(kind: JointKind, i: int)
    requires
        0 <= i < kind.spec_error_terms().len(),
        kind.spec_error_terms()[i] != ErrorTerm::Position,
        kind.spec_error_terms()[i] != ErrorTerm::Separation,
    ensures
        kind.spec_has_axes(),
{
}

/// The stages a joint goes through in every step, in this order.
#[derive(Debug, Clone, Copy, PartialEq, Eq, Structural)]
pub enum SolveStage {
    /// World-space pivots and axes are computed from the bodies' state.
    PreSolve,
    /// The corrective impulse is computed and applied.
    Solve,
    /// Bookkeeping after the impulse.
    PostSolve,
}

impl SolveStage {
    /// The stage that follows `self` within a step, if any.
    pub open spec fn spec_next(self) -> Option<SolveStage> {
        match self {
            SolveStage::PreSolve => Some(SolveStage::Solve),
            SolveStage::Solve => Some(SolveStage::PostSolve),
            SolveStage::PostSolve => None,
        }
    }

    /// The stage that follows `self` within a step; `None` after the last.
    pub fn next(self) -> (stage: Option<SolveStage>)
        ensures
            stage == self.spec_next(),
    {
        match self {
            SolveStage::PreSolve => Some(SolveStage::Solve),
            SolveStage::Solve => Some(SolveStage::PostSolve),
            SolveStage::PostSolve => None,
        }
    }
}

/// A joint's place in the scene: its type, its first body, and its second
/// body if it has one. A joint without a second body ties its first body to
/// the world.
#[derive(Debug, Clone, Copy, PartialEq, Eq, Structural)]
pub struct ConstraintLink {
    pub kind: JointKind,
    pub body_a: usize,
    pub body_b: Option<usize>,
}

impl ConstraintLink {
    /// Every body the joint refers to is one of the first `body_count`.
    pub open spec fn spec_is_attached(self, body_count: int) -> bool {
        &&& self.body_a < body_count
        &&& match self.body_b {
            Some(b) => b < body_count,
            None => true,
        }
    }

    /// The first handle of the joint that names none of `body_count` bodies.
    pub open spec fn spec_dangling(self, body_count: int) -> Option<usize> {
        if self.body_a >= body_count {
            Some(self.body_a)
        } else {
            match self.body_b {
                Some(b) => if b >= body_count {
                    Some(b)
                } else {
                    None
                },
                None => None,
            }
        }
    }

    /// A joint between two bodies.
    pub fn between(kind: JointKind, body_a: usize, body_b: usize) -> (link: ConstraintLink)
        ensures
            link == (ConstraintLink { kind, body_a, body_b: Some(body_b) }),
    {
        ConstraintLink { kind, body_a, body_b: Some(body_b) }
    }

    /// A joint that ties one body to the world.
    pub fn anchored(kind: JointKind, body: usize) -> (link: ConstraintLink)
        ensures
            link == (ConstraintLink { kind, body_a: body, body_b: None }),
    {
        ConstraintLink { kind, body_a: body, body_b: None }
    }

    /// Finds the first handle of the joint that is out of range for a scene
    /// of `body_count` bodies; `None` means the joint is attached.
    pub fn dangling(&self, body_count: usize) -> (handle: Option<usize>)
        ensures
            handle == self.spec_dangling(body_count as int),
            handle.is_none() <==> self.spec_is_attached(body_count as int),
    {
        if self.body_a >= body_count {
            return Some(self.body_a);
        }
        match self.body_b {
            Some(b) => if b >= body_count {
                Some(b)
            } else {
                None
            },
            None => None,
        }
    }
}

} // verus!
