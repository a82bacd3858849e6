//! The address of a peer.

use vstd::prelude::*;

verus! {

/// An internet address and port, as plain numbers. Two addresses are the
/// same peer exactly if they agree in every part.
#[derive(Clone, Copy, Debug, PartialEq, Eq, Hash, Structural)]
#[allow(inconsistent_fields)]
pub enum Address {
    V4 { ip: u32, port: u16 },
    V6 { ip: u128, port: u16, flowinfo: u32, scope_id: u32 },
}

} // verus!
