//! What an Andromeda packet carries.

use vstd::prelude::*;

verus! {

/// Inner payload is a full Ethernet frame (L2 overlay — the default).
pub const ETHERNET: u8 = 0;

/// Inner payload is a bare IPv4 packet (L3 overlay).
pub const IPV4: u8 = 1;

} // verus!
