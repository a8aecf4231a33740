//! Bookkeeping core of a 2D rigid-body engine: the body arena, joint
//! membership, the arbiter (contact) cache with warm-start matching, the
//! broad-phase pair enumeration and the per-step pipeline schedule. The
//! floating-point geometry and impulse arithmetic are left to the engine that
//! drives these pieces.
pub mod arbiter;
pub mod broadphase;
pub mod error;
pub mod registry;
pub mod schedule;
pub mod world;
