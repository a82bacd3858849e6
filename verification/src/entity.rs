//! The handle of an entity.

use vstd::prelude::*;

verus! {

/// The handle of an entity: the slot it lives in, and the generation of the
/// slot that it belongs to. Two handles name the same entity exactly if
/// they agree in both.
#[derive(Clone, Copy, Debug, PartialEq, Eq, Hash, Structural)]
pub struct EntityId {
    pub id: u32,
    pub generation: i32,
}

} // verus!
