# Opolys

A verified library for the Opolys ($OPL) blockchain, written in Verus: the
protocol's data types and byte encodings, block hashing and validation, the
account ledger, refiner bonding and selection, the fee-prioritized mempool,
emission and difficulty, attestations and finality, the genesis ceremony
checks, and the node's block state transition, each function stated in
`requires`/`ensures` and proved.

- `src/` holds the library; `src/lib.rs` lists its modules. Blake3, SHA3,
  ed25519 and Dilithium are called through small wrappers in `src/crypto.rs`
  whose contracts name what the outside functions compute.
- `tests/` holds the tests, run against the compiled library.
- `app/` is the node binary around the library: command-line arguments, the
  genesis state (from a ceremony file when one is given), the refiner block
  production loop over an in-memory block list, and the JSON-RPC endpoint.

What the block transition needs from storage, the clock or the EVO-OMAP
proof-of-work hash enters it as values (`BlockEnvironment`); the gossip
defence in `src/gossip.rs` is a set of step functions whose actions the
caller performs.
