# iroh-nym-transport

A custom transport for iroh that routes QUIC packets through the Nym mixnet.

- `src/` is the verified library: addresses and their conversions, the packet and its
  postcard encoding, and the decisions of each poll to send or receive and of the two
  tasks of an endpoint. Every function but the five wrappers named below has a contract
  that Verus proves; `src/laws.rs` and the `law_` functions in the other modules
  state what holds of several of them together.
- `app/` is ordinary Rust around it: iroh's traits, the channels and locks, and the mixnet
  client of the Nym SDK.
- `tests/` runs the library with the outside crates linked.

What is trusted are the contracts of the wrappers around two outside crates:
`postcard_to_allocvec` and `postcard_from_bytes` in `src/wire.rs` call `postcard`, and
`nym_try_from_bytes`, `nym_display` and `nym_from_str` in `src/recipient.rs` call
`nym-sphinx-addressing`, which holds the `Recipient` of the Nym SDK.
