//! AV_PAIR identifiers in the CHALLENGE target info.

use vstd::prelude::*;

verus! {

pub const EOL: u16 = 0x0000;
pub const NB_COMPUTER_NAME: u16 = 0x0001;
pub const NB_DOMAIN_NAME: u16 = 0x0002;
pub const DNS_COMPUTER_NAME: u16 = 0x0003;
pub const DNS_DOMAIN_NAME: u16 = 0x0004;
pub const DNS_TREE_NAME: u16 = 0x0005;
pub const FLAGS: u16 = 0x0006;
pub const TIMESTAMP: u16 = 0x0007;
pub const SINGLE_HOST: u16 = 0x0008;
pub const TARGET_NAME: u16 = 0x0009;
pub const CHANNEL_BINDINGS: u16 = 0x000A;

} // verus!
