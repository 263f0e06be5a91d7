//! A native RDP client protocol library: TPKT/X.224 framing, security
//! negotiation, NLA (CredSSP + NTLMv2), MCS/GCC, capability exchange, the
//! connection sequence, fast-path graphics and input, virtual channels and the
//! multitransport bootstrap.
//!
//! Byte order: TPKT headers are big-endian; X.224 is byte-oriented; RDP PDUs
//! above MCS are little-endian.

use vstd::prelude::*;

pub mod wire;
pub mod tpkt;
pub mod nego;
pub mod text;
pub mod x224;
pub mod mcs;
pub mod gcc;
pub mod pdu;
pub mod caps;
pub mod info;
pub mod nla;
pub mod graphics;
pub mod egfx;
pub mod vchannel;
pub mod dvc;
pub mod emt;
pub mod multitransport;
pub mod input;
pub mod cert;
pub mod connection;
pub mod session;
pub mod frame;

verus! {

/// Errors from framing, parsing, or driving an RDP connection.
#[derive(Debug)]
pub enum Error {
    /// The buffer is shorter than a structure requires.
    Short { need: usize, have: usize },
    /// A protocol violation.
    Protocol(&'static str),
    /// The server rejected a negotiation step.
    NegotiationFailure(&'static str),
}

/// The result type used throughout the library.
pub type Result<T> = core::result::Result<T, Error>;

/// `r` failed with `Error::Short { need, have }` for exactly these values.
pub open spec fn is_short<T>(r: Result<T>, need: int, have: int) -> bool {
    match r {
        Err(Error::Short { need: n, have: h }) => n == need && h == have,
        _ => false,
    }
}

/// `r` failed with a protocol violation.
pub open spec fn is_protocol<T>(r: Result<T>) -> bool {
    r matches Err(Error::Protocol(_))
}

/// `r` failed because the server rejected a negotiation step.
pub open spec fn is_rejected<T>(r: Result<T>) -> bool {
    r matches Err(Error::NegotiationFailure(_))
}

} // verus!
