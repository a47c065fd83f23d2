//! The block-wise transfer handler of `coap_lite`: what it keeps, and what its calls do.
use crate::block_option::{
    block_bytes, block_option, exponent_within, BlockValue,
};
use crate::coap::MessageKind::{Acknowledgement, Confirmable, NonConfirmable, Reset};
use crate::coap::{
    byte_strings, decoded, options_view, response_to, values_of, with_option, CoapMessage,
    MessageView, BLOCK1, BLOCK2, CONTINUE, MAX_MESSAGE_SIZE, REQUEST_ENTITY_TOO_LARGE, URI_PATH,
};
use coap_lite::block_handler::BlockHandlerConfig as HandlerConfig;
use coap_lite::{BlockHandler, CoapOption, CoapRequest, CoapResponse, Packet};
use vstd::prelude::*;
use vstd::utf8::{decode_utf8, valid_utf8};

verus! {

/// `coap_lite::BlockHandler`, which keeps what block-wise transfers have in progress. Its contents are
/// [`block_states`], its settings [`block_limit`] and [`block_expiry`].
#[verifier::external_type_specification]
#[verifier::external_body]
#[verifier::reject_recursive_types(Endpoint)]
pub struct ExBlockHandler<Endpoint: Ord + Clone>(BlockHandler<Endpoint>);

/// What tells one block-wise transfer from another: the method, the path and the peer.
#[verifier::ext_equal]
pub struct BlockKey {
    pub method: u8,
    pub path: Seq<Seq<char>>,
    pub peer: Seq<char>,
}

/// What the handler keeps of a transfer: the part of a request body that has come in, the response
/// that is being handed out in blocks, and the Block2 value of the last request.
#[verifier::ext_equal]
pub struct BlockState {
    pub upload: Option<Seq<u8>>,
    pub response: Option<MessageView>,
    pub last_block2: Option<BlockValue>,
}

/// What a handler keeps of all transfers.
pub type BlockStates = Map<BlockKey, BlockState>;

/// The path as text; empty where a segment is not UTF-8.
pub open spec fn path_segments(segments: Seq<Seq<u8>>) -> Seq<Seq<char>> {
    if forall|i: int| 0 <= i < segments.len() ==> valid_utf8(#[trigger] segments[i]) {
        Seq::new(segments.len(), |i: int| decode_utf8(segments[i]))
    } else {
        Seq::empty()
    }
}

/// The key of a request with the given code and path from the given peer.
pub open spec fn block_key(code: u8, segments: Seq<Seq<u8>>, peer: Seq<char>) -> BlockKey {
    BlockKey {
        method: if 1 <= code <= 7 {
            code
        } else {
            255
        },
        path: path_segments(segments),
        peer,
    }
}

/// The key of a message.
pub open spec fn message_key(message: MessageView, peer: Seq<char>) -> BlockKey {
    block_key(message.code, values_of(message.options, URI_PATH), peer)
}

/// What is kept under a key; nothing where the key is not there.
pub open spec fn state_at(states: BlockStates, key: BlockKey) -> BlockState {
    if states.contains_key(key) {
        states[key]
    } else {
        BlockState { upload: None, response: None, last_block2: None }
    }
}

/// The transfers that a handler keeps. Those that have outlived the handler's expiry time are
/// still among them until the next call drops them.
pub uninterp spec fn block_states(handler: BlockHandler<String>) -> BlockStates;

/// The message size that a handler was made with.
pub uninterp spec fn block_limit(handler: BlockHandler<String>) -> nat;

/// The expiry time, in milliseconds, that a handler was made with.
pub uninterp spec fn block_expiry(handler: BlockHandler<String>) -> nat;

/// The room that a message size limit leaves for the payload, beside the message's own header and
/// options and the block options that may come to them.
pub open spec fn room(limit: nat, message: MessageView) -> int {
    limit - message.overhead() - 12
}

/// An upload with one block put in its place. Where the upload is shorter, zeros fill the gap.
///
/// A last block that comes in when nothing is kept any more is such a block. It may be the
/// retransmission of one that was served, which has to reach the layer that answers it from its cache.
pub open spec fn placed(upload: Seq<u8>, block: BlockValue, payload: Seq<u8>) -> Seq<u8> {
    let end = block.offset() + block.size();
    let grown = if upload.len() < end {
        upload + Seq::new((end - upload.len()) as nat, |i: int| 0u8)
    } else {
        upload
    };
    grown.take(block.offset()) + payload + grown.skip(end)
}

/// The upload so far; empty before the first block.
pub open spec fn upload_so_far(state: BlockState) -> Seq<u8> {
    match state.upload {
        Some(upload) => upload,
        None => Seq::empty(),
    }
}

/// The block value that answers a block: at the same offset, in blocks no larger than asked for and
/// than there is room for, with the flag set where `length` reaches beyond that block.
pub open spec fn negotiated(block: BlockValue, room: int, length: int) -> BlockValue {
    let size = if block.size() < room {
        block.size()
    } else {
        room
    };
    BlockValue {
        num: (block.offset() / size) as u16,
        more: block.offset() + size < length,
        size_exponent: exponent_within(size) as u8,
    }
}

/// There is room for a block, and the number of the block that answers fits sixteen bits.
pub open spec fn negotiable(block: BlockValue, room: int) -> bool {
    &&& room > 0
    &&& block.offset() / (if block.size() < room {
        block.size()
    } else {
        room
    }) <= 0xFFFF
}

/// A block that the handler takes in: it can be answered, and does not reach more than 16 KiB
/// beyond what has come in.
pub open spec fn takes_in(block: BlockValue, room: int, upload: Seq<u8>) -> bool {
    &&& negotiable(block, room)
    &&& block.offset() + block.size() <= upload.len() + 16384
}

/// The part of a body that one block carries.
pub open spec fn chunk(body: Seq<u8>, block: BlockValue) -> Seq<u8> {
    let end = block.offset() + block.size();
    body.subrange(
        block.offset(),
        if end < body.len() {
            end
        } else {
            body.len() as int
        },
    )
}

/// The block with the flag that says whether the body goes on behind it.
pub open spec fn flagged(block: BlockValue, body: Seq<u8>) -> BlockValue {
    BlockValue { more: block.offset() + block.size() < body.len(), ..block }
}

/// What `intercept_request` makes of a request: its verdict (`None` for an error), the payload that
/// the request then has, the response that then goes with it, and what is then kept.
#[verifier::ext_equal]
pub struct RequestStep {
    pub verdict: Option<bool>,
    pub payload: Seq<u8>,
    pub response: Option<MessageView>,
    pub state: BlockState,
}

/// What `intercept_response` makes of a response: its verdict (`None` for an error), the options and
/// the payload that the response then has, and what is then kept.
#[verifier::ext_equal]
pub struct ResponseStep {
    pub verdict: Option<bool>,
    pub options: Seq<(u16, Seq<u8>)>,
    pub payload: Seq<u8>,
    pub state: BlockState,
}

/// What `coap_lite::BlockHandler::intercept_request` does with a request and its blank response,
/// given the handler's message size and what it keeps of the transfer.
pub uninterp spec fn request_step(
    limit: nat,
    state: BlockState,
    message: MessageView,
) -> RequestStep;

/// What `coap_lite::BlockHandler::intercept_response` does with a response, given the handler's
/// message size and what it keeps of the transfer.
pub uninterp spec fn response_step(
    limit: nat,
    state: BlockState,
    response: MessageView,
) -> ResponseStep;

/// `intercept_request` does not panic on the message: the codec can write it without its payload,
/// and a block upload leaves some room, or is short of it, but is not left with exactly none.
pub open spec fn request_fits(limit: nat, message: MessageView) -> bool {
    &&& message.overhead() <= MAX_MESSAGE_SIZE
    &&& block_option(message, BLOCK1) is Some ==> room(limit, message) != 0
}

/// `intercept_response` does not panic on the response.
pub open spec fn response_fits(limit: nat, state: BlockState, response: MessageView) -> bool {
    values_of(response.options, BLOCK2).len() > 0 || {
        &&& response.overhead() <= MAX_MESSAGE_SIZE
        &&& state.last_block2 is Some ==> room(limit, response) != 0
    }
}

/// The response stays the answer to the request: it is there if and only if one is due, and keeps
/// the request's id and token. Where none is due, the handler does not answer.
pub open spec fn answers(message: MessageView, step: RequestStep) -> bool {
    match (response_to(message), step.response) {
        (Some(_), Some(response)) => {
            &&& response.well_formed()
            &&& response.message_id == message.message_id
            &&& response.token == message.token
        },
        (None, None) => step.verdict != Some(true),
        _ => false,
    }
}

/// A request without block options whose payload there is room for, or that leaves no room for block
/// options at all.
pub open spec fn passes(limit: nat, message: MessageView) -> bool {
    &&& values_of(message.options, BLOCK1).len() == 0
    &&& block_option(message, BLOCK2) is None
    &&& room(limit, message) < 0 || message.payload.len() < room(limit, message)
}

/// A request without Block1 option whose payload there is no room for.
pub open spec fn oversized(limit: nat, message: MessageView) -> bool {
    &&& block_option(message, BLOCK1) is None
    &&& 0 < room(limit, message) < 4096
    &&& message.payload.len() >= room(limit, message)
}

/// What is known of a request step that gets to deal with the request's Block2 value. `echo` is the
/// Block1 value that is in the response by then.
/// - The Block2 value is remembered.
/// - Where no response is being handed out, the request goes on.
/// - Where one is, and can go with the request, the request is answered with the block of it that is
///   asked for; the response is kept until its last block has gone out.
/// - A block beyond its end is an error. The Block1 value stays in the response.
pub open spec fn block2_facts(
    state: BlockState,
    message: MessageView,
    block: BlockValue,
    echo: Option<BlockValue>,
    step: RequestStep,
) -> bool {
    &&& step.state.last_block2 == Some(block)
    &&& match state.response {
        None => {
            &&& step.verdict == Some(false)
            &&& step.response == (match (echo, response_to(message)) {
                (Some(echo), Some(blank)) => Some(
                    MessageView { options: seq![(BLOCK1, block_bytes(echo))], ..blank },
                ),
                (_, blank) => blank,
            })
            &&& step.state.response is None
        },
        Some(held) => response_to(message) is Some ==> {
            let options = match echo {
                Some(echo) => with_option(held.options, BLOCK1, block_bytes(echo)),
                None => held.options,
            };
            let clear = values_of(held.options, BLOCK2).len() == 0 && (echo is Some ==> values_of(
                held.options,
                BLOCK1,
            ).len() == 0);
            let sent = flagged(block, held.payload);
            if block.offset() < held.payload.len() {
                &&& step.verdict == Some(true)
                &&& clear ==> step.response == Some(
                    MessageView {
                        message_id: message.message_id,
                        token: message.token,
                        options: with_option(options, BLOCK2, block_bytes(sent)),
                        payload: chunk(held.payload, block),
                        ..held
                    },
                )
                &&& step.state.response == (if sent.more {
                    Some(held)
                } else {
                    None
                })
            } else {
                &&& step.verdict is None
                &&& clear ==> step.response == Some(
                    MessageView {
                        message_id: message.message_id,
                        token: message.token,
                        options,
                        payload: Seq::empty(),
                        ..held
                    },
                )
                &&& step.state.response == Some(held)
            }
        },
    }
}

/// What is known of every request step:
/// - the response stays the answer to the request;
/// - a request without Block1 option keeps its payload, and so does what has come in of an upload;
/// - a request that passes is left as it is. Where there is room for block options, no Block2 value is
///   remembered behind it;
/// - an oversized one is answered `4.13` with a Block1 option that hints at a size;
/// - a block that cannot be taken in, or not be answered, is an error. The first changes nothing;
/// - a block with more to follow is put in its place and answered `2.31` with a Block1 option;
/// - the last block is put in its place and the whole upload becomes the request's payload, with a
///   Block1 option in the response. Where it asks for no block of the answer, no Block2 value is
///   remembered behind it;
/// - what a Block2 value asks for is dealt with behind that (see [`block2_facts`]).
pub open spec fn request_step_facts(
    limit: nat,
    state: BlockState,
    message: MessageView,
    step: RequestStep,
) -> bool {
    let space = room(limit, message);
    &&& answers(message, step)
    &&& block_option(message, BLOCK1) is None ==> {
        &&& step.payload == message.payload
        &&& step.state.upload == state.upload
    }
    &&& passes(limit, message) ==> {
        &&& step.response == response_to(message)
        &&& if space < 0 {
            step.verdict is None && step.state == state
        } else {
            &&& step.verdict == Some(false)
            &&& step.state == (BlockState { last_block2: None, ..state })
        }
    }
    &&& oversized(limit, message) ==> (response_to(message) matches Some(blank) ==> {
        let hint = BlockValue {
            num: 0,
            more: true,
            size_exponent: exponent_within(space) as u8,
        };
        &&& step.verdict == Some(true)
        &&& step.response == Some(
            MessageView {
                code: REQUEST_ENTITY_TOO_LARGE,
                options: seq![(BLOCK1, block_bytes(hint))],
                ..blank
            },
        )
        &&& step.state == state
    })
    &&& block_option(message, BLOCK1) matches Some(block) ==> {
        let upload = placed(upload_so_far(state), block, message.payload);
        if !takes_in(block, space, upload_so_far(state)) {
            &&& step.verdict is None
            &&& step.payload == message.payload
            &&& step.response == response_to(message)
            &&& upload_so_far(step.state) == upload_so_far(state)
            &&& step.state == (BlockState { upload: step.state.upload, ..state })
        } else if response_to(message) is None {
            &&& step.verdict is None
            &&& step.payload == (if block.more {
                message.payload
            } else {
                upload
            })
            &&& step.state == (BlockState {
                upload: if block.more {
                    Some(upload)
                } else {
                    None
                },
                ..state
            })
        } else {
            let blank = response_to(message).unwrap();
            let echo = negotiated(block, space, message.payload.len() as int);
            let options = seq![(BLOCK1, block_bytes(echo))];
            if block.more {
                &&& step.verdict == Some(true)
                &&& step.response == Some(MessageView { code: CONTINUE, options, ..blank })
                &&& step.state == (BlockState { upload: Some(upload), ..state })
            } else {
                &&& step.payload == upload
                &&& step.state.upload is None
                &&& match block_option(message, BLOCK2) {
                    None => {
                        &&& step.verdict == Some(false)
                        &&& step.response == Some(MessageView { options, ..blank })
                        &&& step.state.response == state.response
                        &&& step.state.last_block2 is None
                    },
                    Some(block2) => block2_facts(state, message, block2, Some(echo), step),
                }
            }
        }
    }
    &&& block_option(message, BLOCK1) is None && message.payload.len() < space ==> (block_option(
        message,
        BLOCK2,
    ) matches Some(block2) ==> block2_facts(state, message, block2, None, step))
}

/// The block of the response that is sent first: that which the last request's Block2 option asks
/// for, or the first one where the response does not fit.
pub open spec fn first_block(limit: nat, state: BlockState, response: MessageView) -> BlockValue {
    let space = room(limit, response);
    match state.last_block2 {
        Some(block) => negotiated(block, space, response.payload.len() as int),
        None => BlockValue { num: 0, more: true, size_exponent: exponent_within(space) as u8 },
    }
}

/// The response is sent whole: it has a Block2 option of its own, or it fits and no Block2 option
/// asks for a part of it.
pub open spec fn sent_whole(limit: nat, state: BlockState, response: MessageView) -> bool {
    ||| values_of(response.options, BLOCK2).len() > 0
    ||| state.last_block2 is None && response.payload.len() < room(limit, response)
}

/// The response is cut into blocks.
pub open spec fn sent_in_blocks(limit: nat, state: BlockState, response: MessageView) -> bool {
    let space = room(limit, response);
    &&& !sent_whole(limit, state, response)
    &&& match state.last_block2 {
        Some(block) => negotiable(block, space),
        None => 0 < space < 4096,
    }
    &&& first_block(limit, state, response).offset() < response.payload.len()
}

/// What is known of every response step:
/// - a response that is sent whole is left as it is;
/// - one that is cut into blocks gets the payload of one block and a Block2 option that names that
///   block, and the response as it was is kept where more blocks follow;
/// - any other is an error, which changes nothing.
pub open spec fn response_step_facts(
    limit: nat,
    state: BlockState,
    response: MessageView,
    step: ResponseStep,
) -> bool {
    &&& crate::coap::ordered(step.options)
    &&& sent_whole(limit, state, response) ==> {
        &&& step.verdict == Some(false)
        &&& step.options == response.options
        &&& step.payload == response.payload
        &&& step.state == state
    }
    &&& sent_in_blocks(limit, state, response) ==> {
        let block = first_block(limit, state, response);
        let sent = flagged(block, response.payload);
        &&& step.verdict == Some(sent.more)
        &&& step.options == with_option(response.options, BLOCK2, block_bytes(sent))
        &&& step.payload == chunk(response.payload, block)
        &&& step.state == (if sent.more {
            BlockState { response: Some(response), ..state }
        } else {
            state
        })
    }
    &&& !sent_whole(limit, state, response) && !sent_in_blocks(limit, state, response) ==> {
        &&& step.verdict is None
        &&& step.options == response.options
        &&& step.payload == response.payload
        &&& step.state == state
    }
}

/// What a call of `intercept_request` leaves of the request.
#[derive(Debug)]
pub struct Intercepted {
    /// Whether the handler has answered; `None` where it met an error.
    pub verdict: Option<bool>,
    /// The request's payload, which is the whole upload behind the last block of one.
    pub payload: Vec<u8>,
    /// The response that goes with the request.
    pub response: Option<CoapMessage>,
}

/// What a call of `intercept_response` leaves of the response.
#[derive(Debug)]
pub struct Fragment {
    /// Whether the response goes out in blocks; `None` where the handler met an error.
    pub verdict: Option<bool>,
    pub options: Vec<(u16, Vec<u8>)>,
    pub payload: Vec<u8>,
}

/// What the step of a request and a call's outcome have in common.
pub open spec fn outcome_of(outcome: Intercepted, step: RequestStep) -> bool {
    &&& outcome.verdict == step.verdict
    &&& outcome.payload@ == step.payload
    &&& match outcome.response {
        Some(response) => step.response == Some(response@),
        None => step.response is None,
    }
}

/// What the step of a response and a call's outcome have in common.
pub open spec fn fragment_of(fragment: Fragment, step: ResponseStep) -> bool {
    &&& fragment.verdict == step.verdict
    &&& options_view(fragment.options@) == step.options
    &&& fragment.payload@ == step.payload
}

/// The settings of a handler do not change.
pub open spec fn same_settings(
    before: BlockHandler<String>,
    after: BlockHandler<String>,
) -> bool {
    &&& block_limit(after) == block_limit(before)
    &&& block_expiry(after) == block_expiry(before)
}

/// The handler has dropped what is not in `kept`, and has then taken the step with the message.
pub open spec fn request_taken(
    limit: nat,
    before: BlockStates,
    kept: BlockStates,
    key: BlockKey,
    message: MessageView,
    step: RequestStep,
    after: BlockStates,
) -> bool {
    &&& kept.submap_of(before)
    &&& request_step_facts(limit, state_at(kept, key), message, step)
    &&& after == kept.insert(key, step.state)
}

/// The handler has dropped what is not in `kept`, and has then taken the step with the response.
pub open spec fn response_taken(
    limit: nat,
    before: BlockStates,
    kept: BlockStates,
    key: BlockKey,
    response: MessageView,
    step: ResponseStep,
    after: BlockStates,
) -> bool {
    &&& kept.submap_of(before)
    &&& response_step_facts(limit, state_at(kept, key), response, step)
    &&& after == kept.insert(key, step.state)
}

/// A handler from `coap_lite::BlockHandler::new`: it keeps nothing yet, and has the message size and
/// the expiry time that it is given.
#[verifier::external_body]
pub(crate) fn new_handler(max_total_message_size: usize, cache_expiry_millis: u64) -> (r:
    BlockHandler<String>)
    ensures
        block_states(r) == BlockStates::empty(),
        block_limit(r) == max_total_message_size,
        block_expiry(r) == cache_expiry_millis,
{
    BlockHandler::new(HandlerConfig {
        max_total_message_size,
        cache_expiry_duration: std::time::Duration::from_millis(cache_expiry_millis),
    })
}

/// `coap_lite::BlockHandler::intercept_request` on the request that the datagram `wire` from `peer`
/// holds, with its blank response.
///
/// The handler looks the transfer up by [`message_key`], takes a step that depends on its message
/// size, on what it keeps of the transfer and on the request, and keeps what the step leaves. What
/// has outlived its expiry time, which depends on the clock, is dropped first: `kept` is what
/// remains. Which entries remain is left open. Of the step itself, [`request_step_facts`] hold.
#[verifier::external_body]
pub(crate) fn handler_intercept_request(
    handler: &mut BlockHandler<String>,
    wire: &[u8],
    peer: String,
) -> (r: Intercepted)
    requires
        decoded(wire@) matches Some(message) && request_fits(block_limit(*old(handler)), message),
    ensures
        same_settings(*old(handler), *final(handler)),
        exists|kept: BlockStates| #[trigger]
            request_taken(
                block_limit(*old(handler)),
                block_states(*old(handler)),
                kept,
                message_key(decoded(wire@).unwrap(), peer@),
                decoded(wire@).unwrap(),
                request_step(
                    block_limit(*old(handler)),
                    state_at(kept, message_key(decoded(wire@).unwrap(), peer@)),
                    decoded(wire@).unwrap(),
                ),
                block_states(*final(handler)),
            ) && outcome_of(
                r,
                request_step(
                    block_limit(*old(handler)),
                    state_at(kept, message_key(decoded(wire@).unwrap(), peer@)),
                    decoded(wire@).unwrap(),
                ),
            ),
{
    let packet = Packet::from_bytes(wire).unwrap();
    let mut request = CoapRequest::from_packet(packet, peer);
    let verdict = handler.intercept_request(&mut request).ok();
    let response = request.response.map(|CoapResponse { message: p }| CoapMessage {
        version: p.header.get_version(),
        kind: [Confirmable, NonConfirmable, Acknowledgement, Reset][p.header.get_type() as usize],
        code: p.header.code.into(),
        message_id: p.header.message_id,
        token: p.get_token().to_vec(),
        options: p.options().flat_map(|(n, vs)| vs.iter().map(move |v| (*n, v.clone()))).collect(),
        payload: p.payload,
    });
    Intercepted { verdict, payload: request.message.payload, response }
}

/// `coap_lite::BlockHandler::intercept_response` on a request with the given code and path from
/// `peer`, whose response the datagram `wire` holds. Of the response it changes the options and
/// the payload only.
///
/// The handler looks the transfer up by [`block_key`], takes a step that depends on its message
/// size, on what it keeps of the transfer and on the response, and keeps what the step leaves. As
/// with requests, what has outlived its expiry time is dropped first, and which entries remain is
/// left open. Of the step itself, [`response_step_facts`] hold.
#[verifier::external_body]
pub(crate) fn handler_intercept_response(
    handler: &mut BlockHandler<String>,
    code: u8,
    path: &Vec<Vec<u8>>,
    peer: String,
    wire: &[u8],
) -> (r: Fragment)
    requires
        decoded(wire@) matches Some(response) && response_fits(
            block_limit(*old(handler)),
            state_at(block_states(*old(handler)), block_key(code, byte_strings(path@), peer@)),
            response,
        ),
    ensures
        same_settings(*old(handler), *final(handler)),
        exists|kept: BlockStates| #[trigger]
            response_taken(
                block_limit(*old(handler)),
                block_states(*old(handler)),
                kept,
                block_key(code, byte_strings(path@), peer@),
                decoded(wire@).unwrap(),
                response_step(
                    block_limit(*old(handler)),
                    state_at(kept, block_key(code, byte_strings(path@), peer@)),
                    decoded(wire@).unwrap(),
                ),
                block_states(*final(handler)),
            ) && fragment_of(
                r,
                response_step(
                    block_limit(*old(handler)),
                    state_at(kept, block_key(code, byte_strings(path@), peer@)),
                    decoded(wire@).unwrap(),
                ),
            ),
{
    let mut packet = Packet::new();
    packet.header.code = code.into();
    path.iter().for_each(|s| packet.add_option(CoapOption::UriPath, s.clone()));
    let mut request = CoapRequest::from_packet(packet, peer);
    request.response = Packet::from_bytes(wire).ok().map(|message| CoapResponse { message });
    let verdict = handler.intercept_response(&mut request).ok();
    let p = request.response.unwrap().message;
    Fragment {
        verdict,
        options: p.options().flat_map(|(n, vs)| vs.iter().map(move |v| (*n, v.clone()))).collect(),
        payload: p.payload,
    }
}

} // verus!
