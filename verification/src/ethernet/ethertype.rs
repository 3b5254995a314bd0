//! EtherType values.

use vstd::prelude::*;

verus! {

pub const IPV4: u16 = 0x0800;

pub const ARP: u16 = 0x0806;

pub const IPV6: u16 = 0x86dd;

} // verus!
