# hole_punch

The verified core of HP2, a diagnostic tool that looks for a direct UDP path
between two machines behind NAT.

- `src/` is the library. It performs no I/O. Every function is proved against its
  contract with Verus, except for seven contracts that are believed (below).
  - `protocol`: session codes and authenticated control packets
  - `stun`: Binding requests and responses
  - `discovery`: the search for the public address among STUN servers
  - `session`: the state machine of a session, on the model in `session_model`
  - `console`, `lines`: the command line, the keyboard and the messages
  - `address`, `text`, `bytes`, `pending`, `crypto`: what the others stand on
  - `protocol_laws`, `stun_laws`, `discovery_laws`, `session_laws`, `path_laws`,
    `console_laws`: what holds of the library as a whole
  - `runs`, `pass_laws`, `meeting_laws`: what holds of sessions over many steps, and
    of two sessions that look for each other
- `app/` is the program: sockets, threads and the terminal.
- `tests/` run the library on concrete values.

## What is believed

These contracts speak of code outside the library and are not proved. Each says in
its doc comment what it claims.

- `crypto::sha256`, `crypto::hmac_tag`, `crypto::hmac_verify`: the `sha2` and `hmac`
  crates
- `crypto::random_bytes`: the `rand` crate
- `lines::utf8_lossy`: `String::from_utf8_lossy`
- `text::utf8_text`: `core::str::from_utf8`
- the specification of `String::push` in `text`
