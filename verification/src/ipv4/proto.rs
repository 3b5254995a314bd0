//! IP protocol numbers.

use vstd::prelude::*;

verus! {

pub const ICMP: u8 = 1;

pub const TCP: u8 = 6;

pub const UDP: u8 = 17;

} // verus!
