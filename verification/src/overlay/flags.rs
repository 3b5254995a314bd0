//! Andromeda header flags.

use vstd::prelude::*;

verus! {

/// This is a control-plane message (route/endpoint update), not tenant data.
pub const CONTROL: u8 = 0x8;

/// Reserved for a future OAM/liveness channel.
pub const OAM: u8 = 0x4;

} // verus!
