//! The discrete core of a rigid-body physics engine.
//!
//! A simulation step applies gravity, integrates every body, solves the
//! joints and resolves collisions. The arithmetic of all that is numerical
//! and lives with the caller. What a step decides without arithmetic is
//! here:
//!
//! - [`broad_phase`]: the uniform grid that groups bodies by cell and lists
//!   the pairs that may collide;
//! - [`collision`]: which pairs a step tests, in which order, and with which
//!   shape test;
//! - [`narrow_phase`]: the candidate axes of a separating-axis test and the
//!   choice of the contact axis among them;
//! - [`constraints`]: the joint types, the errors each of them corrects and
//!   the stages of solving one;
//! - [`world`]: the scene, with bodies addressed by stable index and joints
//!   that are accepted only if their bodies exist, and the plan of a step;
//! - [`rigid_body`]: shape tags and the description of a body that the above
//!   work on.
//!
//! The caller hands over cell coordinates, shape tags, handles and the
//! ranks of overlaps, and acts on the lists it gets back.

pub mod broad_phase;
pub mod collision;
pub mod constraints;
pub mod narrow_phase;
pub mod rigid_body;
pub mod world;
