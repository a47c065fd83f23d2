//! What block-wise transfers promise as a whole.
use crate::block::{
    answered, request_served, request_served_from, response_served, response_served_from,
    BlockService, PendingView, StepView, LWM2M_MESSAGE_SIZE,
};
use crate::block_handler::{
    chunk, first_block, flagged, message_key, negotiated, oversized, passes, placed, request_step,
    response_step, room, sent_in_blocks, state_at, takes_in, upload_so_far, BlockKey, BlockState,
    BlockStates,
};
use crate::block_option::{
    block_bytes, block_of, block_option, exponent_within, law_block_option_round_trip,
    size_of_exponent, BlockValue,
};
use crate::block_routes::law_service_answers_are_kept;
use crate::coap::{
    decoded, first_value, lemma_values_of_added, lemma_values_of_others, lemma_with_option_short,
    options_size, response_to, values_of, with_option, MessageKind, MessageView, BLOCK1, BLOCK2,
    CONTINUE, EMPTY, MAX_MESSAGE_SIZE, REQUEST_ENTITY_INCOMPLETE, REQUEST_ENTITY_TOO_LARGE, URI_PATH,
};
use crate::dedup::dedup_key;
use crate::handler::{answer_to, serving_error};
use crate::transport::DatagramView;
use vstd::prelude::*;

verus! {

/// A block value as it comes out of an option, or goes into one.
pub open spec fn fits_option(block: BlockValue) -> bool {
    block.num < 4096 && block.size_exponent < 8
}

/// What a peer reads in an option that a block value was written to.
pub open spec fn read_back(block: BlockValue) -> Option<BlockValue> {
    block_of(block_bytes(block))
}

/// A blank response with one option that holds a block value fits every limit, and is read as it is.
proof fn lemma_block_reply_is_small(message: MessageView, code: u8, block: BlockValue)
    requires
        message.token.len() <= 8,
        code != EMPTY,
    ensures
        ({
            let reply = MessageView {
                code,
                options: seq![(BLOCK1, block_bytes(block))],
                ..response_to(message).unwrap()
            };
            response_to(message) is Some ==> {
                &&& reply.wire_size() <= MAX_MESSAGE_SIZE
                &&& reply.as_sent() == reply
                &&& reply.portable()
                &&& block_option(reply, BLOCK1) == read_back(block)
                &&& fits_option(block) ==> read_back(block) == Some(block)
            }
        }),
{
    let options: Seq<(u16, Seq<u8>)> = seq![(BLOCK1, block_bytes(block))];
    if fits_option(block) {
        law_block_option_round_trip(block);
    }
    assert(options.drop_first() =~= Seq::empty());
    assert(options_size(options.drop_first(), BLOCK1 as int) == 0);
    assert(options.drop_last() =~= Seq::empty());
    assert(values_of(options.drop_last(), BLOCK1) =~= Seq::empty());
    assert(values_of(options, BLOCK1) =~= seq![block_bytes(block)]);
}

/// A request without block options that there is room for reaches the service as it was sent. What
/// has come in of an upload stays as it is, unless it has expired.
pub proof fn law_plain_request_passes_through(
    before: BlockService,
    datagram: DatagramView,
    message: MessageView,
    step: StepView,
    after: BlockService,
)
    requires
        request_served(before, datagram, message, step, after),
        passes(before.limit(), message),
        message.portable(),
    ensures
        step matches StepView::Forward(forwarded, pending) && {
            &&& forwarded.peer == datagram.peer
            &&& decoded(forwarded.bytes) == Some(message.as_sent())
            &&& pending.key() == message_key(message, datagram.peer)
            &&& pending.answerable == response_to(message) is Some
            &&& pending.block1_ack is None
        },
        ({
            let key = message_key(message, datagram.peer);
            state_at(after.states(), key).upload is Some ==> state_at(after.states(), key).upload
                == state_at(before.states(), key).upload
        }),
{
    assert(MessageView { payload: message.payload, ..message } == message);
    if let Some(blank) = response_to(message) {
        assert(values_of(blank.options, BLOCK1) =~= Seq::empty());
    }
}

/// The service never gets a part of an upload: where it is called for a message with a Block1 option,
/// that is the last block of an upload, and the payload is the whole that was put together, of any
/// size. In particular it is never called for a block with more to follow.
pub proof fn law_service_gets_whole_uploads_only(
    before: BlockService,
    kept: BlockStates,
    datagram: DatagramView,
    message: MessageView,
    step: StepView,
    after: BlockService,
)
    requires
        request_served_from(before, kept, datagram, message, step, after),
        values_of(message.options, BLOCK1).len() > 0,
    ensures
        !(step is Bypass),
        step matches StepView::Forward(forwarded, _) ==> {
            &&& block_option(message, BLOCK1) matches Some(block) && {
                &&& !block.more
                &&& takes_in(
                    block,
                    room(before.limit(), message),
                    upload_so_far(state_at(kept, message_key(message, datagram.peer))),
                )
                &&& message.portable() ==> decoded(forwarded.bytes) == Some(
                    whole_request(kept, datagram, message, block).as_sent(),
                )
            }
            &&& forwarded.peer == datagram.peer
        },
{
}

/// A block that cannot be taken in is answered `4.08 Request Entity Incomplete` under its own id and
/// token; the service is not called.
pub proof fn law_refused_block_is_incomplete(
    before: BlockService,
    kept: BlockStates,
    datagram: DatagramView,
    message: MessageView,
    block: BlockValue,
    step: StepView,
    after: BlockService,
)
    requires
        request_served_from(before, kept, datagram, message, step, after),
        response_to(message) is Some,
        block_option(message, BLOCK1) == Some(block),
        !takes_in(
            block,
            room(before.limit(), message),
            upload_so_far(state_at(kept, message_key(message, datagram.peer))),
        ),
    ensures
        step matches StepView::Reply(reply) && {
            &&& reply.peer == datagram.peer
            &&& decoded(reply.bytes) matches Some(response) && {
                &&& response.version == 1
                &&& response.kind == (if message.kind == MessageKind::Confirmable {
                    MessageKind::Acknowledgement
                } else {
                    MessageKind::NonConfirmable
                })
                &&& response.code == REQUEST_ENTITY_INCOMPLETE
                &&& response.message_id == message.message_id
                &&& response.token == message.token
                &&& response.options.len() == 0
                &&& response.payload.len() == 0
            }
        },
        upload_so_far(state_at(after.states(), message_key(message, datagram.peer)))
            == upload_so_far(state_at(kept, message_key(message, datagram.peer))),
{
}

/// A request that is too large and has no Block1 option is answered `4.13`, under its own id and
/// token, with a Block1 option that names a block size; the service is not called.
pub proof fn law_oversized_request_is_refused(
    before: BlockService,
    datagram: DatagramView,
    message: MessageView,
    step: StepView,
    after: BlockService,
)
    requires
        request_served(before, datagram, message, step, after),
        message.well_formed(),
        oversized(before.limit(), message),
        response_to(message) is Some,
    ensures
        step matches StepView::Reply(reply) && {
            &&& reply.peer == datagram.peer
            &&& decoded(reply.bytes) matches Some(response) && {
                &&& response.version == 1
                &&& response.kind == (if message.kind == MessageKind::Confirmable {
                    MessageKind::Acknowledgement
                } else {
                    MessageKind::NonConfirmable
                })
                &&& response.code == REQUEST_ENTITY_TOO_LARGE
                &&& response.message_id == message.message_id
                &&& response.token == message.token
                &&& response.options.len() == 1
                &&& response.payload.len() == 0
                &&& block_option(response, BLOCK1) == Some(
                    BlockValue {
                        num: 0,
                        more: true,
                        size_exponent: exponent_within(room(before.limit(), message)) as u8,
                    },
                )
            }
        },
{
    let hint = BlockValue {
        num: 0,
        more: true,
        size_exponent: exponent_within(room(before.limit(), message)) as u8,
    };
    lemma_block_reply_is_small(message, REQUEST_ENTITY_TOO_LARGE, hint);
}

/// Every block value that is read from an option fits one.
pub proof fn lemma_read_blocks_fit(bytes: Seq<u8>)
    ensures
        block_of(bytes) matches Some(block) ==> fits_option(block),
{
}

/// A block with more to follow is put in its place and answered `2.31 Continue` with a Block1 option
/// that names it; the service is not called.
pub proof fn law_intermediate_block_is_continued(
    before: BlockService,
    kept: BlockStates,
    datagram: DatagramView,
    message: MessageView,
    block: BlockValue,
    step: StepView,
    after: BlockService,
)
    requires
        request_served_from(before, kept, datagram, message, step, after),
        message.well_formed(),
        response_to(message) is Some,
        block_option(message, BLOCK1) == Some(block),
        block.more,
        takes_in(
            block,
            room(before.limit(), message),
            upload_so_far(state_at(kept, message_key(message, datagram.peer))),
        ),
    ensures
        step matches StepView::Reply(reply) && {
            let echo = negotiated(
                block,
                room(before.limit(), message),
                message.payload.len() as int,
            );
            &&& reply.peer == datagram.peer
            &&& decoded(reply.bytes) matches Some(response) && {
                &&& response.version == 1
                &&& response.kind == (if message.kind == MessageKind::Confirmable {
                    MessageKind::Acknowledgement
                } else {
                    MessageKind::NonConfirmable
                })
                &&& response.code == CONTINUE
                &&& response.message_id == message.message_id
                &&& response.token == message.token
                &&& response.options.len() == 1
                &&& response.payload.len() == 0
                &&& block_option(response, BLOCK1) == read_back(echo)
                &&& fits_option(echo) ==> read_back(echo) == Some(echo)
            }
        },
        ({
            let key = message_key(message, datagram.peer);
            let state = state_at(kept, key);
            after.states() == kept.insert(
                key,
                BlockState {
                    upload: Some(placed(upload_so_far(state), block, message.payload)),
                    ..state
                },
            )
        }),
{
    lemma_block_reply_is_small(
        message,
        CONTINUE,
        negotiated(block, room(before.limit(), message), message.payload.len() as int),
    );
}

/// The request asks for no block of a response that is being handed out: it has no Block2 value, or
/// nothing is being handed out, or the block is beyond the end of that.
pub open spec fn asks_for_nothing_held(state: BlockState, message: MessageView) -> bool {
    block_option(message, BLOCK2) matches Some(block) ==> (state.response matches Some(held) ==> {
        &&& block.offset() >= held.payload.len()
        &&& values_of(held.options, BLOCK1).len() == 0
        &&& values_of(held.options, BLOCK2).len() == 0
    })
}

/// The last block of an upload calls the service with the whole upload as payload, also where it cannot
/// be answered. Where it can, its Block1 value is put by for the answer, and its Block2 value is
/// remembered. Nothing of the upload is kept.
pub proof fn law_final_block_forwards_the_upload(
    before: BlockService,
    kept: BlockStates,
    datagram: DatagramView,
    message: MessageView,
    block: BlockValue,
    step: StepView,
    after: BlockService,
)
    requires
        request_served_from(before, kept, datagram, message, step, after),
        message.well_formed(),
        block_option(message, BLOCK1) == Some(block),
        message.portable(),
        !block.more,
        takes_in(
            block,
            room(before.limit(), message),
            upload_so_far(state_at(kept, message_key(message, datagram.peer))),
        ),
        response_to(message) is None || asks_for_nothing_held(
            state_at(kept, message_key(message, datagram.peer)),
            message,
        ),
    ensures
        step matches StepView::Forward(forwarded, pending) && {
            let echo = negotiated(
                block,
                room(before.limit(), message),
                message.payload.len() as int,
            );
            &&& forwarded.peer == datagram.peer
            &&& decoded(forwarded.bytes) == Some(
                whole_request(kept, datagram, message, block).as_sent(),
            )
            &&& pending.answerable == response_to(message) is Some
            &&& pending.key() == message_key(message, datagram.peer)
            &&& pending.answerable ==> pending.block1_ack == read_back(echo)
            &&& fits_option(echo) ==> read_back(echo) == Some(echo)
        },
        state_at(after.states(), message_key(message, datagram.peer)).upload is None,
        response_to(message) is Some ==> state_at(
            after.states(),
            message_key(message, datagram.peer),
        ).last_block2 == block_option(message, BLOCK2),
{
    let state = state_at(kept, message_key(message, datagram.peer));
    let echo = negotiated(block, room(before.limit(), message), message.payload.len() as int);
    if fits_option(echo) {
        law_block_option_round_trip(echo);
    }
    if block.num > 0 {
        assert(block.offset() > 0) by (nonlinear_arith)
            requires
                block.num > 0,
                block.size() > 0,
                block.offset() == block.num * block.size(),
        ;
    }
    if response_to(message) is Some {
        lemma_block_reply_is_small(message, response_to(message).unwrap().code, echo);
        if let Some(held) = state.response {
            lemma_values_of_added(held.options, BLOCK1, block_bytes(echo));
            assert(values_of(held.options, BLOCK1).len() == 0 ==> values_of(
                with_option(held.options, BLOCK1, block_bytes(echo)),
                BLOCK1,
            )[0] == block_bytes(echo));
        }
    }
}

/// The request with the whole upload in place of its own part.
pub open spec fn whole_request(
    kept: BlockStates,
    datagram: DatagramView,
    message: MessageView,
    block: BlockValue,
) -> MessageView {
    let state = state_at(kept, message_key(message, datagram.peer));
    MessageView { payload: placed(upload_so_far(state), block, message.payload), ..message }
}

/// Two messages have the same version, type, code, id and token.
pub open spec fn same_header(one: MessageView, two: MessageView) -> bool {
    &&& one.version == two.version
    &&& one.kind == two.kind
    &&& one.code == two.code
    &&& one.message_id == two.message_id
    &&& one.token == two.token
}

/// Two messages have the same values of every option but Block1 and Block2.
pub open spec fn same_other_options(one: MessageView, two: MessageView) -> bool {
    forall|number: u16|
        number != BLOCK1 && number != BLOCK2 ==> #[trigger] values_of(one.options, number)
            == values_of(two.options, number)
}

/// Two messages have the same header if and only if no field of it differs, and the same other options if and
/// only if none differs.
pub proof fn law_likeness_is_field_by_field(one: MessageView, two: MessageView, number: u16)
    ensures
        one.version != two.version || one.kind != two.kind || one.code != two.code || one.message_id
            != two.message_id || one.token != two.token ==> !same_header(one, two),
        number != 23 && number != 27 && values_of(one.options, number) != values_of(
            two.options,
            number,
        ) ==> !same_other_options(one, two),
{
}

/// What the peer reads of an answer within the codec's limit has the header of the service's response, and
/// its values of every option but Block1 and Block2.
proof fn lemma_answer_keeps_the_response(
    before: BlockService,
    kept: BlockStates,
    pending: PendingView,
    datagram: DatagramView,
    response: MessageView,
    answer: DatagramView,
    after: BlockService,
)
    requires
        response_served_from(before, kept, pending, datagram, response, answer, after),
        response.well_formed(),
        response.portable(),
        ({
            let handled = response_step(
                before.limit(),
                state_at(kept, pending.key()),
                response,
            );
            answered(response, handled.options, handled.payload, pending.block1_ack).wire_size()
                <= MAX_MESSAGE_SIZE
        }),
    ensures
        decoded(answer.bytes) matches Some(sent) && {
            &&& same_header(sent, response)
            &&& same_other_options(sent, response)
        },
{
    law_service_answers_are_kept(
        before,
        kept,
        pending,
        datagram,
        response,
        answer,
        after,
        URI_PATH,
    );
    let sent = decoded(answer.bytes).unwrap();
    assert forall|number: u16| number != BLOCK1 && number != BLOCK2 implies #[trigger] values_of(
        sent.options,
        number,
    ) == values_of(response.options, number) by {
        law_service_answers_are_kept(
            before,
            kept,
            pending,
            datagram,
            response,
            answer,
            after,
            number,
        );
    }
}

/// The service's answer to the last block of an upload goes out under its own version, type, code, id and
/// token, with its own values of every option but Block1 and Block2, and with the Block1 value that was put
/// by.
pub proof fn law_block1_is_echoed(
    before: BlockService,
    kept: BlockStates,
    pending: PendingView,
    datagram: DatagramView,
    response: MessageView,
    answer: DatagramView,
    after: BlockService,
    ack: BlockValue,
)
    requires
        response_served_from(before, kept, pending, datagram, response, answer, after),
        pending.block1_ack == Some(ack),
        fits_option(ack),
        response.well_formed(),
        response.portable(),
        values_of(response.options, BLOCK1).len() == 0,
        ({
            let handled = response_step(
                before.limit(),
                state_at(kept, pending.key()),
                response,
            );
            answered(response, handled.options, handled.payload, Some(ack)).wire_size()
                <= MAX_MESSAGE_SIZE
        }),
    ensures
        answer.peer == datagram.peer,
        decoded(answer.bytes) matches Some(sent) && {
            &&& same_header(sent, response)
            &&& same_other_options(sent, response)
            &&& block_option(sent, BLOCK1) == Some(ack)
            &&& values_of(sent.options, BLOCK1).len() == 1
        },
{
    let state = state_at(kept, pending.key());
    let handled = response_step(before.limit(), state, response);
    law_block_option_round_trip(ack);
    lemma_values_of_added(handled.options, BLOCK1, block_bytes(ack));
    if sent_in_blocks(before.limit(), state, response) {
        let sent = flagged(first_block(before.limit(), state, response), response.payload);
        lemma_values_of_others(response.options, BLOCK2, block_bytes(sent), BLOCK1);
        lemma_with_option_short(response.options, BLOCK2, block_bytes(sent));
    }
    lemma_with_option_short(handled.options, BLOCK1, block_bytes(ack));
    assert(values_of(handled.options, BLOCK1) =~= Seq::empty());
    lemma_answer_keeps_the_response(before, kept, pending, datagram, response, answer, after);
}

/// A response that is too large for one message goes out as its first block, with a Block2 option that
/// names the block and says whether more follow. Its version, type, code, id and token stay, and so do its
/// values of every option but Block1 and Block2. The response is kept where more follow.
pub proof fn law_large_response_is_cut(
    before: BlockService,
    kept: BlockStates,
    pending: PendingView,
    datagram: DatagramView,
    response: MessageView,
    answer: DatagramView,
    after: BlockService,
)
    requires
        response_served_from(before, kept, pending, datagram, response, answer, after),
        sent_in_blocks(before.limit(), state_at(kept, pending.key()), response),
        response.well_formed(),
        response.portable(),
        response.code != EMPTY,
        ({
            let block = first_block(before.limit(), state_at(kept, pending.key()), response);
            let handled = response_step(
                before.limit(),
                state_at(kept, pending.key()),
                response,
            );
            &&& fits_option(block)
            &&& answered(
                response,
                handled.options,
                handled.payload,
                pending.block1_ack,
            ).wire_size() <= MAX_MESSAGE_SIZE
        }),
    ensures
        ({
            let block = first_block(before.limit(), state_at(kept, pending.key()), response);
            let sent = flagged(block, response.payload);
            &&& answer.peer == datagram.peer
            &&& decoded(answer.bytes) matches Some(message) && {
                &&& same_header(message, response)
                &&& same_other_options(message, response)
                &&& message.payload == chunk(response.payload, block)
                &&& block_option(message, BLOCK2) == Some(sent)
            }
            &&& sent.more ==> state_at(after.states(), pending.key()).response == Some(response)
        }),
{
    let state = state_at(kept, pending.key());
    let block = first_block(before.limit(), state, response);
    let sent = flagged(block, response.payload);
    let handled = response_step(before.limit(), state, response);
    law_block_option_round_trip(sent);
    lemma_values_of_added(response.options, BLOCK2, block_bytes(sent));
    lemma_with_option_short(response.options, BLOCK2, block_bytes(sent));
    if let Some(ack) = pending.block1_ack {
        lemma_values_of_others(handled.options, BLOCK1, block_bytes(ack), BLOCK2);
        lemma_with_option_short(handled.options, BLOCK1, block_bytes(ack));
    }
    assert(values_of(response.options, BLOCK2) =~= Seq::empty());
    lemma_answer_keeps_the_response(before, kept, pending, datagram, response, answer, after);
}

/// The reply to a request for a block of a response that is kept.
pub open spec fn block_reply(
    held: MessageView,
    message: MessageView,
    block: BlockValue,
) -> MessageView {
    MessageView {
        message_id: message.message_id,
        token: message.token,
        options: with_option(held.options, BLOCK2, block_bytes(flagged(block, held.payload))),
        payload: chunk(held.payload, block),
        ..held
    }
}

/// The request asks for a block of a response, and for nothing else.
pub open spec fn asks_for(limit: nat, message: MessageView, block: BlockValue) -> bool {
    &&& message.well_formed()
    &&& response_to(message) is Some
    &&& block_option(message, BLOCK1) is None
    &&& block_option(message, BLOCK2) == Some(block)
    &&& message.payload.len() < room(limit, message)
}

/// A request for a block of a response that is kept is answered with that block, under its own id and
/// token, with the response's version, type and code and its values of every option but Block2; the service
/// is not called. The response is kept until its last block has gone out.
pub proof fn law_kept_response_is_served(
    before: BlockService,
    kept: BlockStates,
    datagram: DatagramView,
    message: MessageView,
    block: BlockValue,
    held: MessageView,
    step: StepView,
    after: BlockService,
)
    requires
        request_served_from(before, kept, datagram, message, step, after),
        asks_for(before.limit(), message, block),
        state_at(kept, message_key(message, datagram.peer)).response == Some(held),
        values_of(held.options, BLOCK2).len() == 0,
        held.well_formed(),
        held.portable(),
        held.code != EMPTY,
        block.offset() < held.payload.len(),
        block_reply(held, message, block).wire_size() <= MAX_MESSAGE_SIZE,
    ensures
        step matches StepView::Reply(reply) && {
            &&& reply.peer == datagram.peer
            &&& decoded(reply.bytes) == Some(block_reply(held, message, block))
            &&& decoded(reply.bytes) matches Some(sent) && {
                &&& sent.version == held.version
                &&& sent.kind == held.kind
                &&& sent.code == held.code
                &&& sent.message_id == message.message_id
                &&& sent.token == message.token
                &&& same_other_options(sent, held)
                &&& values_of(sent.options, BLOCK1) == values_of(held.options, BLOCK1)
                &&& sent.payload == chunk(held.payload, block)
            }
        },
        block_option(block_reply(held, message, block), BLOCK2) == Some(
            flagged(block, held.payload),
        ),
        state_at(after.states(), message_key(message, datagram.peer)).response == (if flagged(
            block,
            held.payload,
        ).more {
            Some(held)
        } else {
            None
        }),
{
    let sent = flagged(block, held.payload);
    lemma_read_blocks_fit(first_value(message.options, BLOCK2).unwrap());
    law_block_option_round_trip(sent);
    lemma_values_of_added(held.options, BLOCK2, block_bytes(sent));
    lemma_with_option_short(held.options, BLOCK2, block_bytes(sent));
    assert(values_of(held.options, BLOCK2) =~= Seq::empty());
    lemma_values_of_others(held.options, BLOCK2, block_bytes(sent), BLOCK1);
    assert forall|number: u16| number != BLOCK1 && number != BLOCK2 implies #[trigger] values_of(
        block_reply(held, message, block).options,
        number,
    ) == values_of(held.options, number) by {
        lemma_values_of_others(held.options, BLOCK2, block_bytes(sent), number);
    }
    assert(block_reply(held, message, block).as_sent() == block_reply(held, message, block));
}

/// The blocks of a body, in order.
pub open spec fn blocks_of(body: Seq<u8>, exponent: u8, count: nat) -> Seq<Seq<u8>> {
    Seq::new(
        count,
        |i: int| chunk(body, BlockValue { num: i as u16, more: false, size_exponent: exponent }),
    )
}

/// The first blocks of a body make up its start.
proof fn lemma_blocks_make_up_the_start(body: Seq<u8>, exponent: u8, count: nat)
    requires
        count <= 4096,
        count > 0 ==> (count - 1) * size_of_exponent(exponent as int) < body.len(),
    ensures
        ({
            let end = count * size_of_exponent(exponent as int);
            blocks_of(body, exponent, count).flatten_alt() == body.take(
                if end < body.len() {
                    end
                } else {
                    body.len() as int
                },
            )
        }),
    decreases count,
{
    let size = size_of_exponent(exponent as int);
    let blocks = blocks_of(body, exponent, count);
    if count == 0 {
        assert(body.take(0) =~= Seq::empty());
    } else {
        let less = (count - 1) as nat;
        assert(count * size == less * size + size) by (nonlinear_arith)
            requires
                count == less + 1,
        ;
        if less > 0 {
            assert((less - 1) * size < less * size) by (nonlinear_arith)
                requires
                    size > 0,
            ;
        }
        lemma_blocks_make_up_the_start(body, exponent, less);
        assert(blocks.drop_last() =~= blocks_of(body, exponent, less));
        assert(0 <= less * size) by (nonlinear_arith)
            requires
                size > 0,
        ;
        let end = if count * size < body.len() {
            count * size
        } else {
            body.len() as int
        };
        assert(body.take(less * size) + body.subrange(less * size, end) =~= body.take(end));
    }
}

/// The blocks of a body, put together in order, are the body.
pub proof fn law_blocks_make_up_the_body(body: Seq<u8>, exponent: u8, count: nat)
    requires
        0 < count <= 4096,
        (count - 1) * size_of_exponent(exponent as int) < body.len(),
        body.len() <= count * size_of_exponent(exponent as int),
    ensures
        blocks_of(body, exponent, count).flatten() == body,
{
    lemma_blocks_make_up_the_start(body, exponent, count);
    blocks_of(body, exponent, count).lemma_flatten_and_flatten_alt_are_equivalent();
    assert(body.take(body.len() as int) =~= body);
}

/// What is answered in place of the service goes to the peer that asked, under the id and the token that
/// it asked with.
pub proof fn law_replies_mirror_the_request(
    before: BlockService,
    kept: BlockStates,
    datagram: DatagramView,
    message: MessageView,
    step: StepView,
    after: BlockService,
)
    requires
        request_served_from(before, kept, datagram, message, step, after),
        step is Reply,
        request_step(
            before.limit(),
            state_at(kept, message_key(message, datagram.peer)),
            message,
        ).response matches Some(response) ==> response.portable(),
    ensures
        step matches StepView::Reply(reply) && {
            &&& reply.peer == datagram.peer
            &&& reply.bytes.len() > 0 ==> (decoded(reply.bytes) matches Some(response) && {
                &&& response.message_id == message.message_id
                &&& response.token == message.token
            })
        },
{
}

/// A message is either answered in place of the service, to the peer that sent it, or handed on to the
/// service as coming from that peer. There is no other outcome.
pub proof fn law_every_message_is_answered_or_handed_on(
    before: BlockService,
    datagram: DatagramView,
    message: MessageView,
    step: StepView,
    after: BlockService,
)
    requires
        request_served(before, datagram, message, step, after),
    ensures
        match step {
            StepView::Bypass(_) => false,
            StepView::Reply(reply) => reply.peer == datagram.peer,
            StepView::Forward(forwarded, pending) => {
                &&& forwarded.peer == datagram.peer
                &&& pending.key() == message_key(message, datagram.peer)
            },
        },
{
}

/// An acknowledgement or a reset is never answered in place of the service, at most with no bytes, and
/// the service's answer to it is not touched.
pub proof fn law_acknowledgements_are_not_answered(
    before: BlockService,
    datagram: DatagramView,
    message: MessageView,
    step: StepView,
    after: BlockService,
)
    requires
        request_served(before, datagram, message, step, after),
        response_to(message) is None,
    ensures
        match step {
            StepView::Reply(reply) => reply.bytes.len() == 0,
            StepView::Bypass(_) => false,
            StepView::Forward(_, pending) => !pending.answerable,
        },
{
}

/// A request touches no transfer but its own, save that others may expire.
pub proof fn law_requests_keep_to_their_transfer(
    before: BlockService,
    datagram: DatagramView,
    message: MessageView,
    step: StepView,
    after: BlockService,
    other: BlockKey,
)
    requires
        request_served(before, datagram, message, step, after),
        other != message_key(message, datagram.peer),
        after.states().contains_key(other),
    ensures
        before.states().contains_key(other),
        after.states()[other] == before.states()[other],
{
    let kept = choose|kept: BlockStates| #[trigger]
        request_served_from(before, kept, datagram, message, step, after);
    assert(kept.dom().contains(other));
    assert(before.states().dom().contains(other));
    assert(kept[other] == before.states()[other]);
}

/// A response touches no transfer but its own, save that others may expire.
pub proof fn law_responses_keep_to_their_transfer(
    before: BlockService,
    pending: PendingView,
    datagram: DatagramView,
    response: MessageView,
    answer: DatagramView,
    after: BlockService,
    other: BlockKey,
)
    requires
        response_served(before, pending, datagram, response, answer, after),
        other != pending.key(),
        after.states().contains_key(other),
    ensures
        before.states().contains_key(other),
        after.states()[other] == before.states()[other],
{
    let kept = choose|kept: BlockStates| #[trigger]
        response_served_from(before, kept, pending, datagram, response, answer, after);
    assert(kept.dom().contains(other));
    assert(before.states().dom().contains(other));
    assert(kept[other] == before.states()[other]);
}

/// Block-wise transfer does not change what the message handler decides: what reaches the handler is
/// served, refused and answered as the datagram itself would be.
pub proof fn law_blocks_are_transparent_to_the_handler(
    before: BlockService,
    datagram: DatagramView,
    message: MessageView,
    step: StepView,
    after: BlockService,
    id: Seq<char>,
)
    requires
        request_served(before, datagram, message, step, after),
        decoded(datagram.bytes) == Some(message),
        message.portable(),
    ensures
        match step {
            StepView::Reply(_) => true,
            StepView::Bypass(_) => false,
            StepView::Forward(forwarded, _) => {
                &&& serving_error(forwarded.bytes) == serving_error(datagram.bytes)
                &&& decoded(forwarded.bytes) is Some
                &&& response_to(message) is Some ==> answer_to(
                    decoded(forwarded.bytes).unwrap(),
                    id,
                ) == answer_to(message, id)
            },
        },
{
}

/// What reaches the service has the deduplication key of the datagram that came in, so that a
/// retransmission meets the request that it retransmits behind block-wise transfer too.
pub proof fn law_blocks_keep_the_dedup_key(
    before: BlockService,
    datagram: DatagramView,
    message: MessageView,
    step: StepView,
    after: BlockService,
)
    requires
        request_served(before, datagram, message, step, after),
        decoded(datagram.bytes) == Some(message),
        message.portable(),
    ensures
        step matches StepView::Forward(forwarded, _) ==> dedup_key(forwarded) == dedup_key(
            datagram,
        ),
{
}

/// With the settings for LwM2M, a block that is offered is of at most 1024 bytes, whatever was asked for,
/// and of exactly 1024 where the header and the options take no more than 116 bytes.
pub proof fn law_lwm2m_blocks_are_of_1024_bytes(message: MessageView, asked: BlockValue, length: int)
    requires
        room(LWM2M_MESSAGE_SIZE as nat, message) > 0,
    ensures
        ({
            let space = room(LWM2M_MESSAGE_SIZE as nat, message);
            &&& space < 2048
            &&& exponent_within(space) <= 6
            &&& size_of_exponent(exponent_within(space)) <= 1024
            &&& negotiated(asked, space, length).size_exponent <= 6
            &&& negotiated(asked, space, length).size() <= 1024
            &&& message.overhead() <= 116 ==> exponent_within(space) == 6
        }),
{
    crate::coap::lemma_options_size_nonnegative(message.options, 0);
}

/// With the settings for LwM2M, the first block that is sent of a response is of at most 1024 bytes.
///
/// A later block is as large as the peer asks for.
pub proof fn law_lwm2m_first_block_is_of_1024_bytes(
    before: BlockService,
    kept: BlockStates,
    pending: PendingView,
    datagram: DatagramView,
    response: MessageView,
    answer: DatagramView,
    after: BlockService,
)
    requires
        response_served_from(before, kept, pending, datagram, response, answer, after),
        before.limit() == LWM2M_MESSAGE_SIZE,
        sent_in_blocks(before.limit(), state_at(kept, pending.key()), response),
    ensures
        ({
            let handled = response_step(
                before.limit(),
                state_at(kept, pending.key()),
                response,
            );
            let block = first_block(before.limit(), state_at(kept, pending.key()), response);
            &&& block.size_exponent <= 6
            &&& handled.payload.len() <= 1024
        }),
{
    let state = state_at(kept, pending.key());
    let block = first_block(before.limit(), state, response);
    let asked = match state.last_block2 {
        Some(asked) => asked,
        None => block,
    };
    law_lwm2m_blocks_are_of_1024_bytes(response, asked, response.payload.len() as int);
    assert(0 <= block.num * block.size()) by (nonlinear_arith)
        requires
            block.size() > 0,
    ;
}

} // verus!
