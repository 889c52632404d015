# constellation-encoder

A Reed-Solomon erasure-coding library with the parameters of a Constellation
pslice: a payload becomes 256 pshreds, of which any 64 give it back. It is written
in Verus: what the functions do is stated in their contracts and proved.

## Layout

- `src/fec.rs`: `ConstellationEncoder`, with `encode` and `decode`, and the laws
  that relate them. The central one is `any_quorum_recovers_payload`.
- `src/framing.rs`: how a payload is cut into 64 header-prefixed data shards and
  put together from them.
- `src/codec.rs`: `ReedSolomon`, a codec of one shape around that of the
  `reed-solomon-erasure` crate, and everything that is taken on trust about it.
- `src/cache.rs`: `ReedSolomonCache`, which builds the codec of a shape once and
  shares it.
- `src/transport.rs`: pshreds as datagrams, and their collection by a receiver.
- `src/error.rs`, `src/bytes.rs`: errors with their messages; big-endian fields.
- `app/`: a UDP sender and a UDP receiver around the library.

## The format

Each data shard is prefixed with an 8-byte header: a 4-byte big-endian shard index
and a 4-byte big-endian payload length. The length is what lets `decode` cut the
zero padding off, with which the last chunks are filled up to one length. `decode`
fails closed if fewer than 64 shreds are present, and refuses data shards that
disagree on the payload length.

Datagrams carry an index of their own in front of the pshred, since parity shards
are pure Reed-Solomon output.

## What is trusted

The proofs rest on the contracts of three calls into `reed-solomon-erasure` (`new`,
`encode` and `reconstruct_data`) and of `Arc::clone`. Of the code itself they assume
that as many shards of a code word as it has data shards determine it.
