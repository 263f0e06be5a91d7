//! Network Level Authentication: CredSSP carrying NTLMv2 over the TLS channel.

pub mod client;
pub mod credssp;
pub mod crypto;
pub mod der;
pub mod ntlm;
pub mod ntlmv2;
pub mod sspi;
