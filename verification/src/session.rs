//! Parameters of a top-level RDP client session. Driving the session (the
//! TLS transport, NLA and the graphics loop) is the caller's I/O; everything it
//! computes is in the other modules of this crate.

use vstd::prelude::*;

verus! {

/// The default RDP port.
pub const DEFAULT_PORT: u16 = 3389;

/// Connection parameters for an RDP session.
#[derive(Clone, Debug)]
pub struct SessionParams {
    pub host: String,
    pub port: u16,
    pub domain: String,
    pub username: String,
    pub password: String,
    pub width: u16,
    pub height: u16,
}

impl SessionParams {
    /// Parameters for `host` with these credentials, an empty domain, the
    /// default port and a 1280x800 desktop.
    pub fn new(host: &str, username: &str, password: &str) -> (r: SessionParams)
        ensures
            r.host@ == host@,
            r.port == DEFAULT_PORT,
            r.domain@ == Seq::<char>::empty(),
            r.username@ == username@,
            r.password@ == password@,
            r.width == 1280,
            r.height == 800,
    {
        SessionParams {
            host: host.to_owned(),
            port: DEFAULT_PORT,
            domain: String::new(),
            username: username.to_owned(),
            password: password.to_owned(),
            width: 1280,
            height: 800,
        }
    }
}

} // verus!
