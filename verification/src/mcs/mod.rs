//! MCS (T.125) as used by RDP: the BER-encoded Connect Initial/Response and the
//! PER-encoded domain PDUs that carry every RDP PDU once the channels are joined.

pub mod ber;
pub mod connect;
pub mod domain;
pub mod per;
