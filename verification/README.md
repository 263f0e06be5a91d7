# ferropipe_rdp

A native RDP client protocol library whose wire formats, parsers, state and
crypto plumbing are verified with Verus.

- `src/` — the verified library: TPKT/X.224 framing and security negotiation,
  MCS (BER/PER) and GCC blocks, share PDUs and capability sets, the Client Info
  PDU, NLA (DER, NTLMv2, SSPI sealing, CredSSP), the connection sequence over a
  caller-supplied `PduTransport` (its decisions are the step machines
  `ChannelJoiner`, `DemandWaiter` and `Finalizer`), fast-path graphics (bitmap, interleaved RLE,
  planar, pointers, framebuffer, display), EGFX, static and dynamic virtual
  channels, the multitransport bootstrap and tunnel PDUs, and fast-path input.
  Calls into `md4`, `md-5`, `hmac`, `rc4`, `sha2`, `rand` and a few std text
  functions go through small wrappers whose contracts are trusted.
- `app/` — the I/O around it: the TCP + TLS transport (rustls), the session that
  runs NLA, the connection sequence and the graphics loop, and an error type
  with `std::error::Error`.
- `tests/` — the tests, run against the compiled library.

Not carried over: the UDP leg (opening an RDP-UDP connection and the TLS
tunnel over it) needs the sibling `rdpeudp` crate, which is not available, so
the session stays on TCP; the multitransport request is still parsed, its
cookie hash computed, and the tunnel's Create Response check
(`emt::check_create_response`) is in the library. The connection sequence requests and joins no MCS
message channel: the server network data parsed here carries no message
channel ID.
