//! Block-wise transfer (RFC 7959) in front of a service.
//!
//! A [`BlockService`] sees every datagram before the service behind it does, and every answer before
//! the client does:
//!
//! | Situation | Action |
//! |-----------|--------|
//! | Block1 with more to follow | Answer `2.31 Continue`; the service is not called |
//! | Payload too large, no Block1 | Answer `4.13 Request Entity Too Large` with a size hint |
//! | Block1 that cannot be taken in | Answer `4.08 Request Entity Incomplete`; the service is not called |
//! | Block2 of a response that is being handed out | Answer with that block; the service is not called |
//! | Last Block1 | Call the service with the whole body; echo Block1 in its answer |
//! | Anything else | Call the service with the request as it is |
//!
//! The service never gets a part of an upload: where it is called for a message with a Block1 option,
//! that is the last block, and the payload is the whole that the block handler has put together. It is
//! written without the codec's size limit, as it does not leave the process. A part of an upload in a
//! message that cannot be answered goes no further, and no bytes go out for it.
//!
//! The block handler does not tell a last block whose earlier blocks are missing from one that is
//! retransmitted after it was served: both go on, with zeros in place of what is not kept, and the
//! latter is answered by its deduplication key.
use crate::block_handler::{
    block_expiry, block_key, block_limit, block_states, fragment_of, handler_intercept_request,
    handler_intercept_response, message_key, new_handler, outcome_of, request_fits, request_step,
    request_taken, response_fits, response_step, response_taken, room, state_at, BlockKey,
    BlockStates, Fragment, Intercepted, RequestStep, ResponseStep,
};
use crate::block_option::{block_bytes, block_option, BlockValue};
use crate::coap::{
    byte_strings, decode, decoded, encode, encode_unlimited, encoded, encoded_unlimited, is_bare,
    lemma_with_option_ordered, options_view, ordered, read_from, response_to, sent_bytes, values_of,
    with_option, CoapMessage, MessageKind, MessageView, BLOCK1, BLOCK2, CONTENT, MAX_MESSAGE_SIZE,
    REQUEST_ENTITY_INCOMPLETE, URI_PATH,
};
use crate::reliability::COAP_EXCHANGE_LIFETIME;
use crate::transport::{DatagramView, TransportMessage};
use coap_lite::BlockHandler;
use vstd::prelude::*;

verus! {

/// What a block handler is made with.
#[derive(Debug, Clone, Copy, PartialEq, Eq, Structural)]
pub struct BlockHandlerConfig {
    /// The largest message, in bytes, that is offered to a peer.
    pub max_total_message_size: usize,
    /// How long a transfer is kept without a sign of the peer.
    pub cache_expiry_millis: u64,
}

/// What waits for the service's answer to a request that was handed on.
#[derive(Debug)]
pub struct PendingExchange {
    pub code: u8,
    pub path: Vec<Vec<u8>>,
    pub peer_addr: String,
    /// Whether the request can be answered at all.
    pub answerable: bool,
    /// The Block1 value to echo.
    pub block1_ack: Option<BlockValue>,
}

/// The value of a [`PendingExchange`].
#[verifier::ext_equal]
pub struct PendingView {
    pub code: u8,
    pub path: Seq<Seq<u8>>,
    pub peer: Seq<char>,
    pub answerable: bool,
    pub block1_ack: Option<BlockValue>,
}

impl PendingView {
    /// The key of the transfer.
    pub open spec fn key(self) -> BlockKey {
        block_key(self.code, self.path, self.peer)
    }
}

impl View for PendingExchange {
    type V = PendingView;

    open spec fn view(&self) -> PendingView {
        PendingView {
            code: self.code,
            path: byte_strings(self.path@),
            peer: self.peer_addr@,
            answerable: self.answerable,
            block1_ack: self.block1_ack,
        }
    }
}

/// What becomes of a datagram.
#[derive(Debug)]
pub enum BlockStep {
    /// The service gets the datagram, and the client gets the service's answer as it is.
    Bypass(TransportMessage),
    /// The client gets this answer, and the service is not called.
    Reply(TransportMessage),
    /// The service gets this datagram, and its answer goes through
    /// [`BlockService::intercept_response`].
    Forward(TransportMessage, PendingExchange),
}

/// The value of a [`BlockStep`].
#[verifier::ext_equal]
pub enum StepView {
    Bypass(DatagramView),
    Reply(DatagramView),
    Forward(DatagramView, PendingView),
}

impl View for BlockStep {
    type V = StepView;

    open spec fn view(&self) -> StepView {
        match *self {
            BlockStep::Bypass(datagram) => StepView::Bypass(datagram@),
            BlockStep::Reply(datagram) => StepView::Reply(datagram@),
            BlockStep::Forward(datagram, pending) => StepView::Forward(datagram@, pending@),
        }
    }
}

/// A last block that the handler met an error with was taken in all the same: the whole upload is the
/// payload then, which is longer than the block itself unless the block is the first.
pub open spec fn was_taken_in(
    limit: nat,
    message: MessageView,
    block: BlockValue,
    payload: Seq<u8>,
) -> bool {
    if block.num == 0 {
        room(limit, message) > 0
    } else {
        payload.len() > message.payload.len()
    }
}

/// A part of an upload would go on: the handler cannot read the Block1 value and so took it for none, or
/// it met an error with a block that has more to follow or was not taken in.
pub open spec fn refuses(
    limit: nat,
    message: MessageView,
    verdict: Option<bool>,
    payload: Seq<u8>,
) -> bool {
    &&& values_of(message.options, BLOCK1).len() > 0
    &&& match block_option(message, BLOCK1) {
        None => true,
        Some(block) => verdict is None && (block.more || !was_taken_in(
            limit,
            message,
            block,
            payload,
        )),
    }
}

/// The answer to a block that cannot be taken in; none where none is due.
pub open spec fn incomplete(message: MessageView) -> Option<MessageView> {
    match response_to(message) {
        Some(blank) => Some(MessageView { code: REQUEST_ENTITY_INCOMPLETE, ..blank }),
        None => None,
    }
}

/// What becomes of a datagram that holds `message`, given what the handler made of it: the handler's
/// response where it has answered; a refusal where a part of an upload would go on; else the message
/// goes on with the payload that it then has.
pub open spec fn step_for(
    limit: nat,
    datagram: DatagramView,
    message: MessageView,
    verdict: Option<bool>,
    payload: Seq<u8>,
    response: Option<MessageView>,
) -> StepView {
    if verdict == Some(true) {
        StepView::Reply(DatagramView { peer: datagram.peer, bytes: sent_bytes(response) })
    } else if refuses(limit, message, verdict, payload) {
        StepView::Reply(
            DatagramView { peer: datagram.peer, bytes: sent_bytes(incomplete(message)) },
        )
    } else {
        StepView::Forward(
            DatagramView {
                peer: datagram.peer,
                bytes: encoded_unlimited(MessageView { payload, ..message }),
            },
            PendingView {
                code: message.code,
                path: values_of(message.options, URI_PATH),
                peer: datagram.peer,
                answerable: response is Some,
                block1_ack: match response {
                    Some(response) => block_option(response, BLOCK1),
                    None => None,
                },
            },
        )
    }
}

/// The messages that a step sends are read as what was to be sent, where they hold no two-byte form. The
/// handler's response is written wherever it is within the codec's limit, and nothing is elsewhere.
pub open spec fn step_readable(
    message: MessageView,
    verdict: Option<bool>,
    payload: Seq<u8>,
    response: Option<MessageView>,
    step: StepView,
) -> bool {
    match step {
        StepView::Bypass(_) => false,
        StepView::Reply(datagram) => if verdict == Some(true) {
            response matches Some(response) ==> if response.wire_size() <= MAX_MESSAGE_SIZE {
                response.portable() ==> decoded(datagram.bytes) == Some(response.as_sent())
            } else {
                datagram.bytes.len() == 0
            }
        } else {
            incomplete(message) is Some ==> decoded(datagram.bytes) == incomplete(message)
        },
        StepView::Forward(datagram, _) => message.portable() ==> decoded(datagram.bytes) == Some(
            MessageView { payload, ..message }.as_sent(),
        ),
    }
}

/// Refuses a block that cannot be taken in. Where no answer is due, no bytes go out.
pub fn refuse_block(peer_addr: String, message: &CoapMessage) -> (r: TransportMessage)
    requires
        message@.well_formed(),
    ensures
        r@ == (DatagramView { peer: peer_addr@, bytes: sent_bytes(incomplete(message@)) }),
        incomplete(message@) is Some ==> decoded(r@.bytes) == incomplete(message@),
{
    let bytes = match message.new_response() {
        Some(response) => {
            let mut response = response;
            response.set_status(REQUEST_ENTITY_INCOMPLETE);
            match encode(&response) {
                Ok(bytes) => bytes,
                Err(_) => Vec::new(),
            }
        },
        None => Vec::new(),
    };
    TransportMessage::new(peer_addr, bytes)
}

/// Whether a part of an upload would go on.
fn must_refuse(limit: usize, message: &CoapMessage, outcome: &Intercepted) -> (r: bool)
    requires
        message@.overhead() <= MAX_MESSAGE_SIZE,
    ensures
        r == refuses(limit as nat, message@, outcome.verdict, outcome.payload@),
{
    if message.get_first_option(BLOCK1).is_none() {
        return false;
    }
    let block = match message.get_block_option(BLOCK1) {
        Some(block) => block,
        None => {
            return true;
        },
    };
    let taken_in = if block.num == 0 {
        message.overhead() + 12 < limit
    } else {
        outcome.payload.len() > message.payload.len()
    };
    outcome.verdict.is_none() && (block.more || !taken_in)
}

/// Takes a datagram on from the block handler's outcome for the message that it holds.
pub fn route_request(
    limit: usize,
    msg: TransportMessage,
    message: CoapMessage,
    outcome: Intercepted,
) -> (r: BlockStep)
    requires
        message@.well_formed(),
        message@.overhead() <= MAX_MESSAGE_SIZE,
        outcome.response matches Some(response) ==> response@.well_formed(),
    ensures
        r@ == step_for(
            limit as nat,
            msg@,
            message@,
            outcome.verdict,
            outcome.payload@,
            match outcome.response {
                Some(response) => Some(response@),
                None => None,
            },
        ),
        step_readable(
            message@,
            outcome.verdict,
            outcome.payload@,
            match outcome.response {
                Some(response) => Some(response@),
                None => None,
            },
            r@,
        ),
{
    let handled = match outcome.verdict {
        Some(verdict) => verdict,
        None => false,
    };
    if handled {
        let bytes = match outcome.response {
            Some(response) => match encode(&response) {
                Ok(bytes) => bytes,
                Err(_) => Vec::new(),
            },
            None => Vec::new(),
        };
        return BlockStep::Reply(TransportMessage::new(msg.peer_addr, bytes));
    }
    if must_refuse(limit, &message, &outcome) {
        return BlockStep::Reply(refuse_block(msg.peer_addr, &message));
    }
    let block1_ack = match &outcome.response {
        Some(response) => response.get_block_option(BLOCK1),
        None => None,
    };
    let path = message.get_option(URI_PATH);
    let answerable = outcome.response.is_some();
    let mut forwarded = message;
    forwarded.payload = outcome.payload;
    let bytes = match encode_unlimited(&forwarded) {
        Ok(bytes) => bytes,
        Err(_) => Vec::new(),
    };
    BlockStep::Forward(
        TransportMessage::new(msg.peer_addr.clone(), bytes),
        PendingExchange {
            code: forwarded.code,
            path,
            peer_addr: msg.peer_addr,
            answerable,
            block1_ack,
        },
    )
}

/// The response that goes out: with the options and the payload that the handler leaves, and the
/// Block1 option to echo.
pub open spec fn answered(
    response: MessageView,
    options: Seq<(u16, Seq<u8>)>,
    payload: Seq<u8>,
    block1_ack: Option<BlockValue>,
) -> MessageView {
    MessageView {
        options: match block1_ack {
            Some(ack) => with_option(options, BLOCK1, block_bytes(ack)),
            None => options,
        },
        payload,
        ..response
    }
}

/// The datagram that carries an answer; the service's own where the codec cannot write the answer.
pub open spec fn answer_datagram(own: DatagramView, answer: MessageView) -> DatagramView {
    match encoded(answer) {
        Some(bytes) => DatagramView { peer: own.peer, bytes },
        None => own,
    }
}

/// An answer within the codec's limit is read as what was to be sent, where it holds no two-byte form;
/// the codec writes no other.
pub open spec fn answer_readable(answer: MessageView, datagram: DatagramView) -> bool {
    if answer.wire_size() <= MAX_MESSAGE_SIZE {
        answer.portable() ==> decoded(datagram.bytes) == Some(answer.as_sent())
    } else {
        encoded(answer) is None
    }
}

/// Sends an answer with the Block1 option to echo; the service's own datagram where the codec cannot
/// write the answer.
pub fn echo_block1(resp: TransportMessage, answer: CoapMessage, block1_ack: Option<BlockValue>) -> (r:
    TransportMessage)
    requires
        answer@.well_formed(),
    ensures
        r@ == answer_datagram(
            resp@,
            answered(answer@, answer@.options, answer@.payload, block1_ack),
        ),
        answer_readable(answered(answer@, answer@.options, answer@.payload, block1_ack), r@),
{
    let mut answer = answer;
    if let Some(ack) = block1_ack {
        proof {
            lemma_with_option_ordered(answer@.options, BLOCK1, block_bytes(ack));
        }
        answer.add_block_option(BLOCK1, ack);
    }
    match encode(&answer) {
        Ok(bytes) => TransportMessage::new(resp.peer_addr, bytes),
        Err(_) => resp,
    }
}

/// Takes a service's answer on from the block handler's outcome for the response that it holds.
pub fn route_response(
    resp: TransportMessage,
    response: CoapMessage,
    fragment: Fragment,
    block1_ack: Option<BlockValue>,
) -> (r: TransportMessage)
    requires
        response@.well_formed(),
        ordered(options_view(fragment.options@)),
    ensures
        r@ == answer_datagram(
            resp@,
            answered(
                response@,
                options_view(fragment.options@),
                fragment.payload@,
                block1_ack,
            ),
        ),
        answer_readable(
            answered(
                response@,
                options_view(fragment.options@),
                fragment.payload@,
                block1_ack,
            ),
            r@,
        ),
{
    let mut answer = response;
    answer.options = fragment.options;
    answer.payload = fragment.payload;
    echo_block1(resp, answer, block1_ack)
}

/// The server side of block-wise transfers.
pub struct BlockService {
    handler: BlockHandler<String>,
    max_total_message_size: usize,
}

impl BlockService {
    /// The message size at hand is the handler's.
    pub closed spec fn wf(self) -> bool {
        self.max_total_message_size == block_limit(self.handler)
    }

    /// What is kept of all transfers.
    pub closed spec fn states(self) -> BlockStates {
        block_states(self.handler)
    }

    /// The largest message that is offered to a peer.
    pub closed spec fn limit(self) -> nat {
        block_limit(self.handler)
    }

    /// How long a transfer is kept, in milliseconds.
    pub closed spec fn expiry(self) -> nat {
        block_expiry(self.handler)
    }

    /// A service that keeps no transfer yet.
    pub fn new(config: BlockHandlerConfig) -> (r: BlockService)
        ensures
            r.wf(),
            r.states() == BlockStates::empty(),
            r.limit() == config.max_total_message_size,
            r.expiry() == config.cache_expiry_millis,
    {
        BlockService {
            handler: new_handler(config.max_total_message_size, config.cache_expiry_millis),
            max_total_message_size: config.max_total_message_size,
        }
    }

    /// Takes a request in. `message` is what the datagram holds.
    pub fn intercept_request(&mut self, msg: TransportMessage, message: CoapMessage) -> (r:
        BlockStep)
        requires
            old(self).wf(),
            decoded(msg@.bytes) == Some(message@),
            message@.well_formed(),
            request_fits(old(self).limit(), message@),
        ensures
            final(self).wf(),
            final(self).limit() == old(self).limit(),
            final(self).expiry() == old(self).expiry(),
            request_served(*old(self), msg@, message@, r@, *final(self)),
    {
        let outcome = handler_intercept_request(
            &mut self.handler,
            msg.message_buf.as_slice(),
            msg.peer_addr.clone(),
        );
        let ghost key = message_key(message@, msg@.peer);
        let ghost kept = choose|kept: BlockStates| #[trigger]
            request_taken(
                old(self).limit(),
                old(self).states(),
                kept,
                key,
                message@,
                request_step(old(self).limit(), state_at(kept, key), message@),
                self.states(),
            ) && outcome_of(
                outcome,
                request_step(old(self).limit(), state_at(kept, key), message@),
            );
        let ghost before = (msg@, message@);
        let step = route_request(self.max_total_message_size, msg, message, outcome);
        assert(request_served_from(*old(self), kept, before.0, before.1, step@, *self));
        step
    }

    /// Takes a datagram in.
    ///
    /// A datagram that holds no message goes on as it is. `None` is returned where the block
    /// handler cannot deal with the message (see [`request_fits`]); nothing has changed then.
    pub fn handle_request(&mut self, msg: TransportMessage) -> (r: Option<BlockStep>)
        requires
            old(self).wf(),
        ensures
            final(self).wf(),
            final(self).limit() == old(self).limit(),
            final(self).expiry() == old(self).expiry(),
            match decoded(msg@.bytes) {
                None => r matches Some(step) && step@ == StepView::Bypass(msg@) && *final(self)
                    == *old(self),
                Some(message) => if request_fits(old(self).limit(), message) {
                    r matches Some(step) && request_served(
                        *old(self),
                        msg@,
                        message,
                        step@,
                        *final(self),
                    )
                } else {
                    r is None && *final(self) == *old(self)
                },
            },
            decoded(msg@.bytes) matches Some(message) ==> read_from(message, msg@.bytes),
            is_bare(msg@.bytes) ==> decoded(msg@.bytes) is Some,
    {
        let message = match decode(msg.message_buf.as_slice()) {
            Ok(message) => message,
            Err(_) => {
                return Some(BlockStep::Bypass(msg));
            },
        };
        assert(msg.message_buf.len() == msg@.bytes.len());
        let overhead: usize = message.overhead();
        if overhead > MAX_MESSAGE_SIZE {
            return None;
        }
        if overhead + 12 == self.max_total_message_size && message.get_block_option(
            BLOCK1,
        ).is_some() {
            return None;
        }
        Some(self.intercept_request(msg, message))
    }

    /// Takes the service's answer to a request that was handed on. `response` is what the datagram
    /// holds.
    pub fn intercept_response(
        &mut self,
        pending: PendingExchange,
        resp: TransportMessage,
        response: CoapMessage,
    ) -> (r: TransportMessage)
        requires
            old(self).wf(),
            decoded(resp@.bytes) == Some(response@),
            response@.well_formed(),
            response_fits(
                old(self).limit(),
                state_at(old(self).states(), pending@.key()),
                response@,
            ),
        ensures
            final(self).wf(),
            final(self).limit() == old(self).limit(),
            final(self).expiry() == old(self).expiry(),
            response_served(*old(self), pending@, resp@, response@, r@, *final(self)),
    {
        let ghost exchange = pending@;
        let fragment = handler_intercept_response(
            &mut self.handler,
            pending.code,
            &pending.path,
            pending.peer_addr,
            resp.message_buf.as_slice(),
        );
        let ghost key = exchange.key();
        let ghost kept = choose|kept: BlockStates| #[trigger]
            response_taken(
                old(self).limit(),
                old(self).states(),
                kept,
                key,
                response@,
                response_step(old(self).limit(), state_at(kept, key), response@),
                self.states(),
            ) && fragment_of(
                fragment,
                response_step(old(self).limit(), state_at(kept, key), response@),
            );
        let ghost before = (resp@, response@);
        let answer = route_response(resp, response, fragment, pending.block1_ack);
        assert(response_served_from(
            *old(self),
            kept,
            exchange,
            before.0,
            before.1,
            answer@,
            *self,
        ));
        answer
    }

    /// Looks a transfer up, so that it is kept from now on for as long as it would be behind a request.
    /// The handler leaves a response with a Block2 option of its own as it is, and gets a blank one.
    fn look_up(&mut self, pending: PendingExchange)
        requires
            old(self).wf(),
        ensures
            final(self).wf(),
            final(self).limit() == old(self).limit(),
            final(self).expiry() == old(self).expiry(),
            looked_up(old(self).states(), pending@.key(), final(self).states()),
    {
        let mut options: Vec<(u16, Vec<u8>)> = Vec::new();
        options.push((BLOCK2, Vec::new()));
        let blank = CoapMessage {
            version: 1,
            kind: MessageKind::Acknowledgement,
            code: CONTENT,
            message_id: 0,
            token: Vec::new(),
            options,
            payload: Vec::new(),
        };
        proof {
            let options = blank@.options;
            assert(options.drop_first() =~= Seq::empty());
            assert(options.drop_last() =~= Seq::empty());
            reveal_with_fuel(crate::coap::options_size, 2);
            reveal_with_fuel(values_of, 2);
            assert(values_of(options, BLOCK2).len() == 1);
            assert(blank@.as_sent() == blank@);
        }
        match encode(&blank) {
            Ok(bytes) => {
                let ghost key = pending@.key();
                let ghost limit = self.limit();
                let ghost before = self.states();
                let fragment = handler_intercept_response(
                    &mut self.handler,
                    pending.code,
                    &pending.path,
                    pending.peer_addr,
                    bytes.as_slice(),
                );
                proof {
                    let kept = choose|kept: BlockStates| #[trigger]
                        response_taken(
                            limit,
                            before,
                            kept,
                            key,
                            blank@,
                            response_step(limit, state_at(kept, key), blank@),
                            self.states(),
                        ) && fragment_of(
                            fragment,
                            response_step(limit, state_at(kept, key), blank@),
                        );
                    assert(refreshed(before, kept, key, self.states()));
                }
            },
            Err(_) => {},
        }
    }

    /// Takes the service's answer to a request that was handed on.
    ///
    /// An answer that holds no message, or to a request that cannot be answered, goes out as it is.
    /// Where the size limit leaves exactly no room behind the answer's own header and options, no
    /// block size is offered and the answer goes out whole, once the transfer was looked up. `None` is returned where the codec cannot
    /// write even that header and those options.
    pub fn handle_response(&mut self, pending: PendingExchange, resp: TransportMessage) -> (r: Option<
        TransportMessage,
    >)
        requires
            old(self).wf(),
        ensures
            final(self).wf(),
            final(self).limit() == old(self).limit(),
            final(self).expiry() == old(self).expiry(),
            match decoded(resp@.bytes) {
                None => r matches Some(answer) && answer@ == resp@ && *final(self) == *old(self),
                Some(response) => {
                    let whole = answered(
                        response,
                        response.options,
                        response.payload,
                        pending@.block1_ack,
                    );
                    if !pending@.answerable {
                        r matches Some(answer) && answer@ == resp@ && *final(self) == *old(self)
                    } else if response_sizable(old(self).limit(), response) {
                        r matches Some(answer) && response_served(
                            *old(self),
                            pending@,
                            resp@,
                            response,
                            answer@,
                            *final(self),
                        )
                    } else if response.overhead() <= MAX_MESSAGE_SIZE {
                        &&& r matches Some(answer) && answer@ == answer_datagram(resp@, whole)
                            && answer_readable(whole, answer@)
                        &&& looked_up(old(self).states(), pending@.key(), final(self).states())
                    } else {
                        r is None && *final(self) == *old(self)
                    }
                },
            },
            decoded(resp@.bytes) matches Some(response) ==> read_from(response, resp@.bytes),
    {
        let response = match decode(resp.message_buf.as_slice()) {
            Ok(response) => response,
            Err(_) => {
                return Some(resp);
            },
        };
        if !pending.answerable {
            return Some(resp);
        }
        if response.get_first_option(BLOCK2).is_none() {
            assert(resp.message_buf.len() == resp@.bytes.len());
            let overhead: usize = response.overhead();
            if overhead > MAX_MESSAGE_SIZE {
                return None;
            }
            if overhead + 12 == self.max_total_message_size {
                let block1_ack = pending.block1_ack;
                self.look_up(pending);
                return Some(echo_block1(resp, response, block1_ack));
            }
        }
        Some(self.intercept_response(pending, resp, response))
    }
}

/// What is not in `kept` was dropped, and the transfer is kept as it was.
pub open spec fn refreshed(
    before: BlockStates,
    kept: BlockStates,
    key: BlockKey,
    after: BlockStates,
) -> bool {
    &&& kept.submap_of(before)
    &&& after == kept.insert(key, state_at(kept, key))
}

/// The transfer was looked up; what had outlived its expiry time was dropped first.
pub open spec fn looked_up(before: BlockStates, key: BlockKey, after: BlockStates) -> bool {
    exists|kept: BlockStates| #[trigger] refreshed(before, kept, key, after)
}

/// The handler can offer a block size for the response, or need not.
pub open spec fn response_sizable(limit: nat, response: MessageView) -> bool {
    values_of(response.options, BLOCK2).len() > 0 || {
        &&& response.overhead() <= MAX_MESSAGE_SIZE
        &&& room(limit, response) != 0
    }
}

/// The service has taken a message in, with `kept` left of what it kept of all transfers: its handler
/// has taken a step with the message, and `step` is what becomes of the datagram that held it.
pub open spec fn request_served_from(
    before: BlockService,
    kept: BlockStates,
    datagram: DatagramView,
    message: MessageView,
    step: StepView,
    after: BlockService,
) -> bool {
    let key = message_key(message, datagram.peer);
    let handled = request_step(before.limit(), state_at(kept, key), message);
    &&& request_taken(
        before.limit(),
        before.states(),
        kept,
        key,
        message,
        handled,
        after.states(),
    )
    &&& routed(before.limit(), datagram, message, handled, step)
}

/// The service has taken a message in; what had outlived its expiry time was dropped first.
pub open spec fn request_served(
    before: BlockService,
    datagram: DatagramView,
    message: MessageView,
    step: StepView,
    after: BlockService,
) -> bool {
    exists|kept: BlockStates| #[trigger]
        request_served_from(before, kept, datagram, message, step, after)
}

/// The step that becomes of a datagram is the one for what the handler made of its message.
pub open spec fn routed(
    limit: nat,
    datagram: DatagramView,
    message: MessageView,
    handled: RequestStep,
    step: StepView,
) -> bool {
    &&& step == step_for(
        limit,
        datagram,
        message,
        handled.verdict,
        handled.payload,
        handled.response,
    )
    &&& step_readable(
        message,
        handled.verdict,
        handled.payload,
        handled.response,
        step,
    )
}

/// The service has taken an answer in, with `kept` left of what it kept of all transfers: its handler
/// has taken a step with the response, and `answer` is the datagram that goes out.
pub open spec fn response_served_from(
    before: BlockService,
    kept: BlockStates,
    pending: PendingView,
    datagram: DatagramView,
    response: MessageView,
    answer: DatagramView,
    after: BlockService,
) -> bool {
    let key = pending.key();
    let handled = response_step(before.limit(), state_at(kept, key), response);
    &&& response_taken(
        before.limit(),
        before.states(),
        kept,
        key,
        response,
        handled,
        after.states(),
    )
    &&& carried(datagram, response, handled, pending.block1_ack, answer)
}

/// The service has taken an answer in; what had outlived its expiry time was dropped first.
pub open spec fn response_served(
    before: BlockService,
    pending: PendingView,
    datagram: DatagramView,
    response: MessageView,
    answer: DatagramView,
    after: BlockService,
) -> bool {
    exists|kept: BlockStates| #[trigger]
        response_served_from(before, kept, pending, datagram, response, answer, after)
}

/// The datagram that goes out is the one for what the handler made of the response.
pub open spec fn carried(
    datagram: DatagramView,
    response: MessageView,
    handled: ResponseStep,
    block1_ack: Option<BlockValue>,
    answer: DatagramView,
) -> bool {
    let message = answered(response, handled.options, handled.payload, block1_ack);
    &&& answer == answer_datagram(datagram, message)
    &&& answer_readable(message, answer)
}

/// RFC 7252 §4.6: the default message size.
pub const LWM2M_MESSAGE_SIZE: usize = 1152;

/// The settings for LwM2M 1.1 over CoAP/UDP.
///
/// | Field | Value | Source |
/// |-------|-------|--------|
/// | `max_total_message_size` | 1152 B | RFC 7252 §4.6, the default message size |
/// | `cache_expiry_millis` | 247 s | RFC 7252 §4.8.2, `EXCHANGE_LIFETIME` |
///
/// The message size leaves room for blocks of 1024 bytes. A transfer is dropped once the client's
/// exchange must have expired.
pub fn lwm2m_block_handler_config() -> (r: BlockHandlerConfig)
    ensures
        r == (BlockHandlerConfig { max_total_message_size: 1152, cache_expiry_millis: 247_000 }),
{
    BlockHandlerConfig {
        max_total_message_size: LWM2M_MESSAGE_SIZE,
        cache_expiry_millis: COAP_EXCHANGE_LIFETIME * 1000,
    }
}

/// What makes [`BlockService`]s of one kind.
#[derive(Debug, Clone, Copy, PartialEq, Eq, Structural)]
pub struct BlockLayer {
    pub max_total_message_size: usize,
    pub cache_expiry_millis: u64,
}

impl BlockLayer {
    /// A layer with the given settings.
    pub fn new(config: BlockHandlerConfig) -> (r: BlockLayer)
        ensures
            r.max_total_message_size == config.max_total_message_size,
            r.cache_expiry_millis == config.cache_expiry_millis,
    {
        BlockLayer {
            max_total_message_size: config.max_total_message_size,
            cache_expiry_millis: config.cache_expiry_millis,
        }
    }

    /// A service with the layer's settings that keeps no transfer yet.
    pub fn layer(&self) -> (r: BlockService)
        ensures
            r.wf(),
            r.states() == BlockStates::empty(),
            r.limit() == self.max_total_message_size,
            r.expiry() == self.cache_expiry_millis,
    {
        BlockService::new(
            BlockHandlerConfig {
                max_total_message_size: self.max_total_message_size,
                cache_expiry_millis: self.cache_expiry_millis,
            },
        )
    }
}

} // verus!
