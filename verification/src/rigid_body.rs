//! Shape tags and the discrete description of a rigid body.

use vstd::prelude::*;

verus! {

/// The collision shape a body carries.
#[derive(Debug, Clone, Copy, PartialEq, Eq, Structural)]
pub enum CollisionShape {
    Sphere,
    AABB,
    OBB,
}

/// What the collision pipeline needs to know of a body besides its geometry:
/// its shape tag and whether it can move at all. A body of mass zero is
/// static; nothing in a step may change its position or velocity.
#[derive(Debug, Clone, Copy, PartialEq, Eq, Structural)]
pub struct BodyKind {
    pub shape: CollisionShape,
    pub is_static: bool,
}

impl BodyKind {
    /// A body as it is created: a static sphere.
    pub fn new() -> (kind: BodyKind)
        ensures
            kind == (BodyKind { shape: CollisionShape::Sphere, is_static: true }),
    {
        BodyKind { shape: CollisionShape::Sphere, is_static: true }
    }
}

impl Default for BodyKind {
    /// The same as [`BodyKind::new`].
    fn default() -> (kind: BodyKind)
        ensures
            kind == (BodyKind { shape: CollisionShape::Sphere, is_static: true }),
    {
        BodyKind::new()
    }
}

} // verus!
