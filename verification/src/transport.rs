//! Datagrams and the peers that they come from or go to.
use vstd::prelude::*;

verus! {

/// The bytes that a server reads of one datagram at most.
pub const DATAGRAM_BUFFER_SIZE: usize = 1024;

/// A message and the address of the peer that sent it or is to receive it.
#[derive(Debug)]
pub struct TransportMessage {
    pub peer_addr: String,
    pub message_buf: Vec<u8>,
}

/// The value of a [`TransportMessage`].
#[verifier::ext_equal]
pub struct DatagramView {
    pub peer: Seq<char>,
    pub bytes: Seq<u8>,
}

impl View for TransportMessage {
    type V = DatagramView;

    open spec fn view(&self) -> DatagramView {
        DatagramView { peer: self.peer_addr@, bytes: self.message_buf@ }
    }
}

impl Clone for TransportMessage {
    fn clone(&self) -> (r: TransportMessage)
        ensures
            r@ == self@,
    {
        let message_buf = self.message_buf.clone();
        assert(message_buf@ =~= self.message_buf@);
        TransportMessage { peer_addr: self.peer_addr.clone(), message_buf }
    }
}

impl TransportMessage {
    /// Puts an address and a message together.
    pub fn new(peer_addr: String, message_buf: Vec<u8>) -> (r: TransportMessage)
        ensures
            r.peer_addr == peer_addr,
            r.message_buf == message_buf,
    {
        TransportMessage { peer_addr, message_buf }
    }

    /// The message that a read of `len` bytes into `buffer` brought from `peer_addr`.
    pub fn from_datagram(peer_addr: String, buffer: &[u8], len: usize) -> (r: TransportMessage)
        requires
            len <= buffer@.len(),
        ensures
            r@ == (DatagramView { peer: peer_addr@, bytes: buffer@.take(len as int) }),
    {
        let mut message_buf: Vec<u8> = Vec::new();
        let mut i: usize = 0;
        while i < len
            invariant
                i <= len <= buffer@.len(),
                message_buf@ == buffer@.take(i as int),
            decreases len - i,
        {
            message_buf.push(buffer[i]);
            assert(buffer@.take(i + 1) =~= buffer@.take(i as int).push(buffer@[i as int]));
            i = i + 1;
        }
        TransportMessage { peer_addr, message_buf }
    }
}

/// Why a transport cannot be set up.
#[derive(Debug, Clone, Copy, PartialEq, Eq, Structural)]
pub enum TransportError {
    SetupError,
}

/// The value of a datagram is the peer's address and the bytes.
pub proof fn law_datagram_shows_its_fields(msg: TransportMessage)
    ensures
        msg@.peer == msg.peer_addr@,
        msg@.bytes == msg.message_buf@,
{
}

} // verus!
