//! Entity handles.

use vstd::prelude::*;

verus! {

/// A stable handle to an entity of the host scene. The state machines work on
/// handles alone and never own what they point to.
#[derive(Clone, Copy, Debug, PartialEq, Eq, Structural, Hash, PartialOrd, Ord)]
pub struct EntityId(pub u64);

} // verus!
