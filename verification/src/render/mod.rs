//! The renderer's integer bookkeeping: the render handle ledger, the color
//! and appearance constants with their byte packers, and the strip layout
//! of line geometry. Everything that touches floating-point geometry or the
//! GPU lives with the host.
use vstd::prelude::*;

pub mod colors;
pub mod counters;
pub mod faces;
pub mod strips;

verus! {

/// Reference plane the viewport pointer is resolved against.
#[derive(Debug, Clone, Copy, PartialEq, Eq, Structural)]
pub enum WorldPlane {
    /// The world plane `z = 0`, the plane the viewport grid is drawn on.
    GroundZ0,
    /// The plane through the world origin perpendicular to the view
    /// direction (the camera's target plane for the default pose).
    CameraTargetPlane,
}

} // verus!
