# tailsfer_core

Peer-to-peer file transfer over QUIC, with a small rendezvous service that
lets devices find each other. The library under `src/` holds the logic and is
verified with Verus; `app/` holds the programs around it (sockets, files,
the terminal, the async runtime).

Layout of `src/`:

- `transport::protocol`: the frame format (one type byte, a big-endian
  length, the payload), with encode/decode proved inverse.
- `transfer`: the transfer offer and its payload, the receiver's decision
  and the session state machine, the on-disk header, and the chunked
  compression (`packer`) and compression-plus-encryption (`pipeline`)
  streams.
- `crypto::encryption`: ChaCha20-Poly1305 sealing of chunks and the
  hexadecimal key format.
- `identity`: the device identity and its stored form.
- `receiver`, `sender`: the decisions each side of a transfer makes.
- `rendezvous`: the request and answer lines of the rendezvous protocol,
  the server's registry with its expiry rule, and proofs that both ends
  read each other's lines as meant.
- `bytes`, `text`, `compress`, `digest`, `random`: byte and text helpers,
  and the narrow trusted wrappers around `zstd`, `blake3` and `rand`.

`tests/` runs the library on concrete values.
