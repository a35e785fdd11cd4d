# scrubber

Removes sensitive fields from partially signed Bitcoin transactions (PSBTs, versions 0 and 2), so
that they can be shown to untrusted peers. Written in Rust and verified with Verus.

`scrub` reads the PSBT at the front of its input, keeps the pairs whose key types are known to be
harmless in a map of their kind, and writes them back in their order.

- `src/wire.rs`: compact sizes as byte sequences
- `src/consensus.rs`: the calls into the `bitcoin` crate, whose contracts are trusted
- `src/pair.rs`, `src/maps.rs`, `src/psbt.rs`: pairs, maps and PSBTs, how they are read and written
- `src/fields.rs`: the key types that are kept
- `src/counts.rs`: the numbers of inputs and outputs
- `src/output.rs`: writing into a fixed buffer
- `src/scrub.rs`: scrubbing
- `src/laws.rs`: what holds of scrubbing as a whole: it is idempotent, its output is a PSBT with
  exactly the harmless fields of the input, and is the input with whole pairs cut out
- `app/`: the same with an error that implements `std::error::Error`
