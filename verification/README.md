# chains

An append-only, signed and optionally encrypted event log, shared between
peers. The library in `src/` is written in Verus: its functions carry
`requires`/`ensures` contracts that the verifier proves.

- `src/models`: headers (signed over every field, identified by the BLAKE3
  hash of their content), bodies (plain or XChaCha20-Poly1305), and chains
  with their validation rules.
- `src/crypto`: Ed25519 identities, epoch keys for one-to-many streams, and
  X3DH with the Double Ratchet for one-to-one messaging.
- `src/storage`: the key layout of the sled store, reading and writing
  headers, bodies and sessions, and TTL garbage collection with snapshots.
- `src/network`: the sync and gossip protocol messages and what a node does
  with each.
- `src/cli`: parsing of ids and keys, the `append`/`show` commands, and the
  daemon prompt.

The calls into outside crates (sled, bincode, blake3, ed25519-dalek,
x25519-dalek, chacha20poly1305, hmac/sha2, hex, rand) go through small
wrappers marked `#[verifier::external_body]`, each with the contract it is
trusted to meet.

`app/` is the command-line tool around the library: argument parsing with
clap, the libp2p node (GossipSub, Kademlia, mDNS, request-response), the
daemon loop and the serde forms of the protocol messages.
