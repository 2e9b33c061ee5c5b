//! RoboView core: the data model and file parsers of the viewer, the
//! display types, the scene registry, and the renderer's integer
//! bookkeeping.

pub mod displays;
pub mod io;
pub mod scene;
pub mod render;
