//! An LwM2M server over CoAP.
//!
//! A datagram passes, from the outside in, through
//!
//! - [`block`]: block-wise transfer (RFC 7959), on top of [`block_handler`] and [`block_option`];
//! - [`reliability`] and [`dedup`]: the layers that answer duplicates and retry (RFC 7252 §4);
//! - [`handler`]: routing and the answers to registrations.
//!
//! [`coap`] holds messages as plain values, [`transport`] datagrams, [`error`] what can go wrong, and
//! [`server`] what the event loops decide. [`block_routes`] states what becomes of each message and of
//! each answer; [`block_laws`] and [`block_traces`] state what block-wise transfers promise as a whole.
pub mod block;
pub mod block_handler;
pub mod block_laws;
pub mod block_option;
pub mod block_routes;
pub mod block_traces;
pub mod coap;
pub mod dedup;
pub mod error;
pub mod handler;
pub mod reliability;
pub mod server;
pub mod transport;
