# poa_chain

A small proof-of-authority blockchain node whose core is written in Verus
and proved against its contracts.

## Layout

- `src/` — the verified library
  - `block.rs`: block headers, their big-endian encoding, block hashes,
    `Block::validate` and the chain with its validity check
  - `crypto.rs`: SHA-256 (through `sha2`) and Merkle roots
  - `transaction.rs`: transactions and their postcard-encoded hash
  - `signing.rs`: Ed25519 signing and verification (through `ed25519-dalek`)
  - `poa.rs`: round-robin proposer selection and block acceptance
  - `mempool.rs`, `seen.rs`, `orphans.rs`: the bounded stores of a node
  - `node.rs`: the node's decisions on messages and clock ticks
  - `message.rs`, `transport.rs`: protocol messages, frame prefixes and
    handshake checks
  - `cli.rs`, `admin.rs`, `commands.rs`: command line, admin console lines
    and node setup
  - `laws.rs`: properties that relate several functions
- `app/` — the program around the library: threads, TCP, the admin
  console, random seeds and the serde form of messages
- `tests/` — tests run against the compiled library
