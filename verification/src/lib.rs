//! Verified core of a small ray-tracing game: rendering options and their
//! text form, the input-driven control state machine, the layout of the
//! screen into view zones, the pixel traversal and painting of zone buffers,
//! the ordering of rendered zones, the choice of the nearest hit along a ray,
//! and the selection of mesh faces.

pub mod options;
pub mod controls;
pub mod layout;
pub mod raster;
pub mod ordering;
pub mod mesh;
pub mod nearest;
