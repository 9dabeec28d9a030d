# sao

A remote-operation channel for agents: framed messages over TLS, Ed25519
agent authentication against an `authorized_keys` file, SPKI pinning of
servers in `known_hosts`, and a deny-list policy checked before any shell
line runs.

## Layout

- `src/` — the library, verified with Verus: frame header and codec,
  signed bytes, `authorized_keys` and `known_hosts` parsing and rendering,
  agent key files, configuration defaults, policy, SPKI fingerprints, and the
  session decisions of server and client (what to answer to each frame,
  whether an authentication response is accepted, what to run).
  Calls into `base64`, `sha2`, `hex`, `ed25519-dalek`, `x509-parser`,
  `rcgen`, `rustls-pemfile`, `rand`, `uuid` and `std::path` stand behind small trusted items
  whose contracts say what the outside code returns.
- `tests/` — tests of the library's functions on concrete values.
- `app/` — the programs: `sao-server` and the `sao` CLI (one executable,
  chosen by the name it is started under). They do the I/O: sockets, TLS,
  files, child processes, YAML and JSON, terminal prompts.
