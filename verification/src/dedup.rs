//! The key that tells a retransmission from a new request (RFC 7252 §4.5).
use crate::coap::{decode, decoded, is_bare, read_from};
use crate::transport::{DatagramView, TransportMessage};
use vstd::prelude::*;

verus! {

/// The peer and the message id; id 0 for bytes that are no message.
pub open spec fn dedup_key(datagram: DatagramView) -> (Seq<char>, u16) {
    (
        datagram.peer,
        match decoded(datagram.bytes) {
            Some(message) => message.message_id,
            None => 0,
        },
    )
}

/// CoAP message deduplication key per RFC 7252 §4.5.
///
/// Servers keep track of recently received pairs of source endpoint and message id, to suppress
/// duplicates that come from retransmissions. Bytes that are no message use id 0, so that malformed
/// datagrams of one peer are one.
pub fn coap_dedup_key(msg: &TransportMessage) -> (r: (String, u16))
    ensures
        (r.0@, r.1) == dedup_key(msg@),
        decoded(msg@.bytes) matches Some(message) ==> read_from(message, msg@.bytes),
        is_bare(msg@.bytes) ==> decoded(msg@.bytes) is Some,
{
    let mid: u16 = match decode(msg.message_buf.as_slice()) {
        Ok(message) => message.message_id,
        Err(_) => 0,
    };
    (msg.peer_addr.clone(), mid)
}

/// A retransmission has the key of what it retransmits: the key is a matter of the peer and the bytes
/// alone.
pub proof fn law_retransmissions_share_a_key(first: DatagramView, second: DatagramView)
    requires
        first.peer == second.peer,
        first.bytes == second.bytes,
    ensures
        dedup_key(first) == dedup_key(second),
{
}

/// Messages from two peers, and messages of one peer with two ids, have two keys.
pub proof fn law_distinct_messages_have_distinct_keys(first: DatagramView, second: DatagramView)
    requires
        decoded(first.bytes) is Some,
        decoded(second.bytes) is Some,
        first.peer != second.peer || decoded(first.bytes).unwrap().message_id != decoded(
            second.bytes,
        ).unwrap().message_id,
    ensures
        dedup_key(first) != dedup_key(second),
{
}

/// All malformed datagrams of one peer have one key.
pub proof fn law_malformed_datagrams_collapse(first: DatagramView, second: DatagramView)
    requires
        first.peer == second.peer,
        decoded(first.bytes) is None,
        decoded(second.bytes) is None,
    ensures
        dedup_key(first) == dedup_key(second),
        dedup_key(first).1 == 0,
{
}

/// The key of a message is the peer that sent it and the id that it carries.
pub proof fn law_key_is_the_peer_and_the_id(datagram: DatagramView)
    ensures
        dedup_key(datagram).0 == datagram.peer,
        decoded(datagram.bytes) matches Some(message) ==> dedup_key(datagram).1
            == message.message_id,
        decoded(datagram.bytes) is None ==> dedup_key(datagram).1 == 0,
{
}

} // verus!
