# seer (verified)

A proof-of-work ledger with its consensus rules, token economy, peer-to-peer
networking and Telegram transport layer, written in Verus. Every public
operation carries a `requires`/`ensures` contract that Verus proves against
the code.

Layout of `src/`:

- `pow`, `transaction`, `block`, `ledger`, `cell`: SHA-256 and mining,
  transactions, blocks and Merkle roots, the account ledger, bags of cells
  with Merkle proofs.
- `fishermen`, `vertical_patch`: fraud reports with staking, and
  quorum-authorised state corrections.
- `constants`, `gini`, `metrics`, `convergence`: monetary policy, inequality
  and activity metrics, and the deterministic economy simulation.
- `adnl`, `zero_channel`: identities derived from seeds, HMAC signatures and
  the bootstrap handshake.
- `dht`, `hypercube`, `overlay`: Kademlia routing, hypercube routing and
  gossip meshes.
- `db`: the column-family key-value store with atomic batches.
- `transport`, `bot_node`, `factory`, `master_channel`: the wire format and
  the bots built on it.
- `bytemap`: the map keyed by 32-byte identities that the modules above
  share.

`tests/` runs the library on concrete values.
