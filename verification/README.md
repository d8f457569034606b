# javs

The logic of an OpenVPN-compatible VPN server, written in Rust and verified
with Verus: packet formats, key derivation, the protection of the control and
data channels, per-client sessions with retransmission and rekeying, address
assignment, and the push reply.

- `src/` is the verified library. Each module states what its functions do in
  `requires` and `ensures` clauses over mathematical models; the `law_*` proof
  functions state what holds across functions. Calls into other crates (HMAC,
  AES, TLS, X.509, the concurrent map, random numbers) stand behind small
  wrappers whose contracts are trusted.
- `tests/` runs the library with the real crates, up to whole TLS handshakes
  between a client and the server.
- `app/` is the server program: command line, configuration file, sockets, the
  TUN device, timers and firewall commands. Decisions are left to the library.

Times are nanoseconds on one monotonic clock and are passed in, so every rule
about time can be stated and tested.
