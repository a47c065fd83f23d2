# lwm2m_server_rs

An LwM2M server over CoAP/UDP: device registration, block-wise transfer (RFC 7959),
deduplication and retry (RFC 7252).

The logic is a Verus library: every function states in its contract what it returns, and
Verus proves it. The codec, the block handler and the retry, cache and coalesce layers come from
`coap-lite` and the `tower-resilience` crates; what the proofs take from them is stated at
the functions and types that are marked external.

## Layout

- `src/coap.rs` – messages as plain values; the codec calls
- `src/block_option.rs`, `src/block_handler.rs`, `src/block.rs` – block-wise transfer
- `src/block_laws.rs`, `src/block_traces.rs` – what block-wise transfers promise as a whole
- `src/handler.rs` – routing, registration and the answers
- `src/dedup.rs`, `src/reliability.rs` – deduplication key, transmission parameters, layers
- `src/server.rs` – the decisions of the event loops
- `src/transport.rs`, `src/error.rs` – datagrams and errors
- `tests/` – tests of the library with the outside crates linked
- `app/` – sockets, tower services and the programs

## Limits

The codec writes datagrams of at most 1280 bytes; what is put together for the service may be
larger. A block that cannot be taken in is answered `4.08 Request Entity Incomplete`. A last block
whose earlier blocks are no longer kept goes on with zeros in their place: the block handler does
not tell it from a retransmission of the last block, which the cache of answers replies to.
