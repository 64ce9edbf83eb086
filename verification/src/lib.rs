//! Mouse-ray picking for 3D scenes: which mesh lies nearest under the cursor,
//! which entity is hovered from one tick to the next, and where a dragged
//! entity goes.
//!
//! The library holds the discrete half of that work and proves it: assembling
//! triangles from an index buffer, choosing the nearest hit, keeping the mouse
//! ray, and the hover and drag state machines. Coordinates pass through it
//! untouched, in whatever scalar type the host uses; a hit distance is carried
//! as an ordered integer key (see [`distance::Distance`]).

pub mod distance;
pub mod drag;
pub mod entity;
pub mod hover;
pub mod mesh;
pub mod ray;
pub mod scan;
