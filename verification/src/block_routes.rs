//! What becomes of a message and of an answer to it, in all cases and field by field.
use crate::block::{
    answer_datagram, answered, looked_up, refreshed, request_served_from, response_served_from,
    response_sizable, step_for, BlockService, BlockStep, PendingExchange, PendingView, StepView,
};
use crate::block_handler::{
    block_key, chunk, first_block, flagged, message_key, request_fits, request_step, response_step,
    sent_in_blocks, state_at, BlockKey, BlockState, BlockStates,
};
use crate::block_option::{block_bytes, block_of, block_option, BlockValue};
use crate::coap::{
    byte_strings, decoded, encoded, encoded_unlimited, lemma_values_of_added,
    lemma_values_of_others, lemma_with_option_ordered, lemma_with_option_short, ordered, response_to,
    values_of, with_option, MessageKind, MessageView, BLOCK1, BLOCK2, URI_PATH,
};
use crate::transport::DatagramView;
use vstd::prelude::*;

verus! {

/// Where the handler has answered, its response is what goes out, to the peer that asked, as the codec
/// writes it; no bytes go out where there is no response, or the codec cannot write it.
pub proof fn law_handled_message_gets_the_response(
    limit: nat,
    datagram: DatagramView,
    message: MessageView,
    payload: Seq<u8>,
    response: Option<MessageView>,
)
    ensures
        step_for(limit, datagram, message, Some(true), payload, response) matches StepView::Reply(
            reply,
        ) && {
            &&& reply.peer == datagram.peer
            &&& response is None ==> reply.bytes.len() == 0
            &&& response matches Some(response) ==> match encoded(response) {
                Some(bytes) => reply.bytes == bytes,
                None => reply.bytes.len() == 0,
            }
        },
{
}

/// A message that the handler leaves unanswered is refused if and only if a part of an upload would go on:
/// it has a Block1 option, and its value cannot be read, or the handler met an error with it and more
/// blocks follow, or the block was not taken in. Every other message is handed on.
pub proof fn law_only_parts_of_uploads_are_refused(
    limit: nat,
    datagram: DatagramView,
    message: MessageView,
    verdict: Option<bool>,
    payload: Seq<u8>,
    response: Option<MessageView>,
)
    requires
        verdict != Some(true),
    ensures
        ({
            let step = step_for(limit, datagram, message, verdict, payload, response);
            let blocks = values_of(message.options, BLOCK1);
            &&& step is Reply || step is Forward
            &&& blocks.len() == 0 ==> step is Forward
            &&& blocks.len() > 0 ==> match block_of(blocks[0]) {
                None => step is Reply,
                Some(block) => if verdict == Some(false) {
                    step is Forward
                } else if block.more {
                    step is Reply
                } else if block.num == 0 {
                    step is Forward <==> message.overhead() + 12 < limit
                } else {
                    step is Forward <==> message.payload.len() < payload.len()
                },
            }
        }),
{
    if let Some(handled) = verdict {
        assert(!handled);
    }
}

/// A refusal is `4.08 Request Entity Incomplete` of version 1 under the message's id and token, without
/// options and payload: an acknowledgement to a confirmable message, a non-confirmable message to a
/// non-confirmable one. No bytes go out for an acknowledgement or a reset.
pub proof fn law_refusals_are_exact(
    limit: nat,
    datagram: DatagramView,
    message: MessageView,
    verdict: Option<bool>,
    payload: Seq<u8>,
    response: Option<MessageView>,
)
    requires
        verdict != Some(true),
        step_for(limit, datagram, message, verdict, payload, response) is Reply,
    ensures
        step_for(limit, datagram, message, verdict, payload, response) matches StepView::Reply(
            reply,
        ) && {
            let refusal = MessageView {
                version: 1,
                kind: if message.kind == MessageKind::Confirmable {
                    MessageKind::Acknowledgement
                } else {
                    MessageKind::NonConfirmable
                },
                code: 0x88,
                message_id: message.message_id,
                token: message.token,
                options: Seq::empty(),
                payload: Seq::empty(),
            };
            &&& reply.peer == datagram.peer
            &&& if message.kind == MessageKind::Confirmable || message.kind
                == MessageKind::NonConfirmable {
                match encoded(refusal) {
                    Some(bytes) => reply.bytes == bytes,
                    None => reply.bytes.len() == 0,
                }
            } else {
                reply.bytes.len() == 0
            }
        },
{
}

/// What is handed on comes from the peer that sent it, and is the message with the payload that the handler
/// leaves: every other field is the message's own. What waits for the answer holds the message's code,
/// path and peer, whether there is a response, and that response's Block1 value.
pub proof fn law_handed_on_messages_are_exact(
    limit: nat,
    datagram: DatagramView,
    message: MessageView,
    verdict: Option<bool>,
    payload: Seq<u8>,
    response: Option<MessageView>,
)
    requires
        step_for(limit, datagram, message, verdict, payload, response) is Forward,
    ensures
        step_for(limit, datagram, message, verdict, payload, response) matches StepView::Forward(
            forwarded,
            pending,
        ) && {
            &&& forwarded.peer == datagram.peer
            &&& forwarded.bytes == encoded_unlimited(
                MessageView {
                    version: message.version,
                    kind: message.kind,
                    code: message.code,
                    message_id: message.message_id,
                    token: message.token,
                    options: message.options,
                    payload,
                },
            )
            &&& pending.code == message.code
            &&& pending.path == values_of(message.options, URI_PATH)
            &&& pending.peer == datagram.peer
            &&& pending.answerable == response is Some
            &&& match response {
                None => pending.block1_ack is None,
                Some(response) => {
                    let blocks = values_of(response.options, BLOCK1);
                    if blocks.len() == 0 {
                        pending.block1_ack is None
                    } else {
                        pending.block1_ack == block_of(blocks[0])
                    }
                },
            }
        },
{
}

/// A message without Block1 option that there is room for is handed on as it was sent, unless it asks for a
/// block of a response that is kept: it asks for none, or no response is kept under its key.
pub proof fn law_message_without_block1_is_handed_on(
    before: BlockService,
    kept: BlockStates,
    datagram: DatagramView,
    message: MessageView,
    step: StepView,
    after: BlockService,
)
    requires
        request_served_from(before, kept, datagram, message, step, after),
        values_of(message.options, BLOCK1).len() == 0,
        message.payload.len() + message.overhead() + 12 < before.limit(),
        block_option(message, BLOCK2) is None || state_at(
            kept,
            message_key(message, datagram.peer),
        ).response is None,
    ensures
        step matches StepView::Forward(forwarded, pending) && {
            &&& forwarded.peer == datagram.peer
            &&& forwarded.bytes == encoded_unlimited(message)
            &&& message.portable() ==> decoded(forwarded.bytes) == Some(message.as_sent())
            &&& pending.code == message.code
            &&& pending.path == values_of(message.options, URI_PATH)
            &&& pending.peer == datagram.peer
            &&& pending.answerable <==> message.kind == MessageKind::Confirmable || message.kind
                == MessageKind::NonConfirmable
            &&& pending.block1_ack is None
        },
{
    assert(MessageView { payload: message.payload, ..message } == message);
    if let Some(blank) = response_to(message) {
        assert(values_of(blank.options, BLOCK1) =~= Seq::empty());
    }
}

/// A message without Block1 option that there is room for is answered in place of the service if and only if
/// it can be answered and its Block2 value names a block within a response that is kept under its key.
pub proof fn law_message_without_block1_is_answered_from_what_is_kept(
    before: BlockService,
    kept: BlockStates,
    datagram: DatagramView,
    message: MessageView,
    step: StepView,
    after: BlockService,
)
    requires
        request_served_from(before, kept, datagram, message, step, after),
        values_of(message.options, BLOCK1).len() == 0,
        message.payload.len() + message.overhead() + 12 < before.limit(),
    ensures
        step is Reply <==> {
            &&& message.kind == MessageKind::Confirmable || message.kind
                == MessageKind::NonConfirmable
            &&& block_option(message, BLOCK2) matches Some(block) && state_at(
                kept,
                message_key(message, datagram.peer),
            ).response matches Some(held) && block.offset() < held.payload.len()
        },
        step is Reply || step is Forward,
{
}

/// What goes out for a message without Block1 option is the handler's own response: no other answer is sent
/// for it, and `4.08 Request Entity Incomplete` in particular only for a message with a Block1 option. Where
/// the handler has no response to it, it is handed on.
pub proof fn law_message_without_block1_is_not_refused(
    before: BlockService,
    kept: BlockStates,
    datagram: DatagramView,
    message: MessageView,
    step: StepView,
    after: BlockService,
)
    requires
        request_served_from(before, kept, datagram, message, step, after),
        values_of(message.options, BLOCK1).len() == 0,
    ensures
        ({
            let handled = request_step(
                before.limit(),
                state_at(kept, message_key(message, datagram.peer)),
                message,
            );
            &&& step is Forward <==> handled.verdict != Some(true)
            &&& step matches StepView::Reply(reply) ==> {
                &&& handled.verdict == Some(true)
                &&& reply.peer == datagram.peer
                &&& handled.response matches Some(response) && match encoded(response) {
                    Some(bytes) => reply.bytes == bytes,
                    None => reply.bytes.len() == 0,
                }
            }
            &&& step matches StepView::Forward(forwarded, _) ==> {
                &&& forwarded.bytes == encoded_unlimited(message)
                &&& message.portable() ==> decoded(forwarded.bytes) == Some(message.as_sent())
            }
        }),
{
    assert(MessageView { payload: message.payload, ..message } == message);
}

/// An answer keeps every field of the service's response but the options and the payload, which are those
/// that the handler leaves. Of the options, only Block1 differs, and only by the value to echo, which comes
/// behind those that are there.
pub proof fn law_answers_keep_the_response(
    response: MessageView,
    options: Seq<(u16, Seq<u8>)>,
    payload: Seq<u8>,
    block1_ack: Option<BlockValue>,
    other: u16,
)
    requires
        ordered(options),
        other != BLOCK1,
    ensures
        ({
            let answer = answered(response, options, payload, block1_ack);
            &&& answer.version == response.version
            &&& answer.kind == response.kind
            &&& answer.code == response.code
            &&& answer.message_id == response.message_id
            &&& answer.token == response.token
            &&& answer.payload == payload
            &&& ordered(answer.options)
            &&& values_of(answer.options, other) == values_of(options, other)
            &&& values_of(answer.options, BLOCK1) == (match block1_ack {
                Some(ack) => values_of(options, BLOCK1).push(block_bytes(ack)),
                None => values_of(options, BLOCK1),
            })
        }),
{
    if let Some(ack) = block1_ack {
        lemma_with_option_ordered(options, BLOCK1, block_bytes(ack));
        lemma_values_of_added(options, BLOCK1, block_bytes(ack));
        lemma_values_of_others(options, BLOCK1, block_bytes(ack), other);
    }
}

/// An answer goes where the service sent its own, with the bytes that the codec writes for it; where the
/// codec writes none, the service's own datagram goes out.
pub proof fn law_answers_go_where_the_service_sent_them(own: DatagramView, answer: MessageView)
    ensures
        answer_datagram(own, answer).peer == own.peer,
        match encoded(answer) {
            Some(bytes) => answer_datagram(own, answer).bytes == bytes,
            None => answer_datagram(own, answer).bytes == own.bytes,
        },
{
}

/// Whatever becomes of a service's answer, cut or whole, with a Block1 value to echo or without: it goes to
/// the same peer, and what the peer reads has the version, the type, the code, the id and the token of the
/// service's response, and the same values of every option but Block1 and Block2. The Block1 value to echo
/// comes behind those of the response, and a Block2 value does so where the response is cut. An answer that
/// is too large for the codec leaves as the service sent it.
pub proof fn law_service_answers_are_kept(
    before: BlockService,
    kept: BlockStates,
    pending: PendingView,
    datagram: DatagramView,
    response: MessageView,
    answer: DatagramView,
    after: BlockService,
    other: u16,
)
    requires
        response_served_from(before, kept, pending, datagram, response, answer, after),
        response.well_formed(),
        other != BLOCK1,
        other != BLOCK2,
    ensures
        ({
            let state = state_at(kept, pending.key());
            let cut = sent_in_blocks(before.limit(), state, response);
            let block = first_block(before.limit(), state, response);
            let cut_options = if cut {
                with_option(
                    response.options,
                    BLOCK2,
                    block_bytes(flagged(block, response.payload)),
                )
            } else {
                response.options
            };
            let whole = MessageView {
                version: response.version,
                kind: response.kind,
                code: response.code,
                message_id: response.message_id,
                token: response.token,
                options: match pending.block1_ack {
                    Some(ack) => with_option(cut_options, BLOCK1, block_bytes(ack)),
                    None => cut_options,
                },
                payload: if cut {
                    chunk(response.payload, block)
                } else {
                    response.payload
                },
            };
            &&& answer.peer == datagram.peer
            &&& encoded(whole) matches Some(bytes) ==> answer.bytes == bytes
            &&& encoded(whole) is None ==> answer == datagram
            &&& whole.wire_size() > 1280 ==> answer == datagram
            &&& whole.wire_size() <= 1280 && response.portable() ==> (decoded(
                answer.bytes,
            ) matches Some(sent) && {
                &&& sent.version == response.version
                &&& sent.kind == response.kind
                &&& sent.code == response.code
                &&& sent.message_id == response.message_id
                &&& sent.token == response.token
                &&& values_of(sent.options, other) == values_of(response.options, other)
                &&& values_of(sent.options, BLOCK1) == (match pending.block1_ack {
                    Some(ack) => values_of(response.options, BLOCK1).push(block_bytes(ack)),
                    None => values_of(response.options, BLOCK1),
                })
                &&& values_of(sent.options, BLOCK2) == (if cut {
                    values_of(response.options, BLOCK2).push(
                        block_bytes(flagged(block, response.payload)),
                    )
                } else {
                    values_of(response.options, BLOCK2)
                })
                &&& response.code != 0 ==> sent.payload == whole.payload
            })
        }),
{
    let state = state_at(kept, pending.key());
    let handled = response_step(before.limit(), state, response);
    if sent_in_blocks(before.limit(), state, response) {
        let value = block_bytes(
            flagged(first_block(before.limit(), state, response), response.payload),
        );
        lemma_values_of_added(response.options, BLOCK2, value);
        lemma_values_of_others(response.options, BLOCK2, value, BLOCK1);
        lemma_values_of_others(response.options, BLOCK2, value, other);
        if response.portable() {
            lemma_with_option_short(response.options, BLOCK2, value);
        }
    }
    if let Some(ack) = pending.block1_ack {
        let value = block_bytes(ack);
        lemma_values_of_added(handled.options, BLOCK1, value);
        lemma_values_of_others(handled.options, BLOCK1, value, BLOCK2);
        lemma_values_of_others(handled.options, BLOCK1, value, other);
        if response.portable() {
            lemma_with_option_short(handled.options, BLOCK1, value);
        }
    }
}

/// A message is taken in unless its header and options are over the codec's limit, or it has a readable
/// Block1 value and exactly no room is left behind them.
pub proof fn law_only_messages_without_room_are_left(limit: nat, message: MessageView)
    ensures
        request_fits(limit, message) <==> {
            let blocks = values_of(message.options, BLOCK1);
            &&& message.overhead() <= 1280
            &&& !(blocks.len() > 0 && block_of(blocks[0]) is Some && message.overhead() + 12
                == limit)
        },
{
}

/// A response goes through the handler if it has a Block2 option of its own; any other does unless its header
/// and options are over the codec's limit, or exactly no room is left behind them.
pub proof fn law_only_responses_without_room_are_left(limit: nat, response: MessageView)
    ensures
        values_of(response.options, BLOCK2).len() > 0 ==> response_sizable(limit, response),
        values_of(response.options, BLOCK2).len() == 0 ==> (response_sizable(limit, response) <==>
            response.overhead() <= 1280 && response.overhead() + 12 != limit),
{
}

/// To look a transfer up changes no transfer: each is as it was, or has expired. The one that was looked up is
/// kept from then on.
pub proof fn law_looking_up_changes_nothing(
    before: BlockStates,
    key: BlockKey,
    after: BlockStates,
    other: BlockKey,
)
    requires
        looked_up(before, key, after),
    ensures
        after.contains_key(key),
        state_at(after, other) == state_at(before, other) || state_at(after, other)
            == (BlockState { upload: None, response: None, last_block2: None }),
        other != key && after.contains_key(other) ==> before.contains_key(other) && after[other]
            == before[other],
{
    let kept = choose|kept: BlockStates| #[trigger] refreshed(before, kept, key, after);
    if kept.dom().contains(other) {
        assert(before.dom().contains(other));
        assert(kept[other] == before[other]);
    }
}

/// What tells one transfer from another is the method, the path and the peer: two peers never share one, nor
/// do two methods that are told apart.
pub proof fn law_transfers_are_of_one_peer_and_method(
    code: u8,
    path: Seq<Seq<u8>>,
    peer: Seq<char>,
    other_code: u8,
    other_path: Seq<Seq<u8>>,
    other_peer: Seq<char>,
)
    requires
        block_key(code, path, peer) == block_key(other_code, other_path, other_peer),
    ensures
        peer == other_peer,
        1 <= code <= 7 ==> other_code == code,
{
}

/// The values of a step and of what waits for an answer are those of their fields.
pub proof fn law_steps_show_what_they_hold(step: BlockStep, pending: PendingExchange)
    ensures
        match step {
            BlockStep::Bypass(datagram) => step@ == StepView::Bypass(datagram@),
            BlockStep::Reply(datagram) => step@ == StepView::Reply(datagram@),
            BlockStep::Forward(datagram, waiting) => step@ == StepView::Forward(
                datagram@,
                waiting@,
            ),
        },
        pending@.code == pending.code,
        pending@.path == byte_strings(pending.path@),
        pending@.peer == pending.peer_addr@,
        pending@.answerable == pending.answerable,
        pending@.block1_ack == pending.block1_ack,
{
}

} // verus!
