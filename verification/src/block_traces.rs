//! Whole exchanges and whole transfers, from the first block to the last.
use crate::block::{
    answered, refreshed, request_served_from, response_served_from, BlockService, PendingView,
    StepView,
};
use crate::block_handler::{
    chunk, first_block, flagged, message_key, negotiable, negotiated, passes, placed, response_step,
    response_step_facts, room, sent_in_blocks, state_at, takes_in, upload_so_far, BlockKey,
    BlockState, BlockStates, ResponseStep,
};
use crate::block_laws::{
    asks_for, asks_for_nothing_held, block_reply, blocks_of, fits_option, law_block1_is_echoed,
    law_blocks_make_up_the_body, law_final_block_forwards_the_upload,
    law_intermediate_block_is_continued, law_kept_response_is_served, law_large_response_is_cut,
    law_plain_request_passes_through, same_header, same_other_options, whole_request,
};
use crate::block_option::{block_bytes, block_option, exponent_within, size_of_exponent, BlockValue};
use crate::coap::{
    decoded, lemma_options_size_nonnegative, lemma_values_of_others, lemma_with_option_ordered,
    lemma_with_option_short, lemma_with_option_size, response_to, values_of, MessageKind, MessageView,
    BLOCK1, BLOCK2, CONTINUE, EMPTY, MAX_MESSAGE_SIZE,
};
use crate::transport::DatagramView;
use vstd::prelude::*;

verus! {

/// One request that goes on to the service, and the service's answer to it. Other requests may come in
/// between.
pub struct Exchange {
    pub before: BlockService,
    pub kept: BlockStates,
    pub datagram: DatagramView,
    pub message: MessageView,
    pub forwarded: DatagramView,
    pub pending: PendingView,
    pub after: BlockService,
    pub resumed: BlockService,
    pub resumed_kept: BlockStates,
    pub own: DatagramView,
    pub response: MessageView,
    pub answer: DatagramView,
    pub end: BlockService,
}

/// A transfer is as it was, or has expired.
pub open spec fn untouched(before: BlockStates, after: BlockStates, key: BlockKey) -> bool {
    after.contains_key(key) ==> before.contains_key(key) && after[key] == before[key]
}

impl Exchange {
    /// The request was taken in and handed on, the answer was taken in, and in between nothing touched
    /// the transfer.
    pub open spec fn served(self) -> bool {
        &&& request_served_from(
            self.before,
            self.kept,
            self.datagram,
            self.message,
            StepView::Forward(self.forwarded, self.pending),
            self.after,
        )
        &&& self.resumed.limit() == self.before.limit()
        &&& untouched(self.after.states(), self.resumed.states(), self.pending.key())
        &&& response_served_from(
            self.resumed,
            self.resumed_kept,
            self.pending,
            self.own,
            self.response,
            self.answer,
            self.end,
        )
    }

    /// The answer as the handler leaves it, with the Block1 value to echo.
    pub open spec fn answered(self) -> MessageView {
        let handled = response_step(
            self.resumed.limit(),
            state_at(self.resumed_kept, self.pending.key()),
            self.response,
        );
        answered(self.response, handled.options, handled.payload, self.pending.block1_ack)
    }
}

/// The Block2 value that is remembered when the answer comes in is that which was behind the request, or
/// none where the transfer has expired.
proof fn lemma_block2_is_remembered(exchange: Exchange)
    requires
        exchange.served(),
    ensures
        state_at(exchange.resumed_kept, exchange.pending.key()).last_block2 == (
        if exchange.resumed_kept.contains_key(exchange.pending.key()) {
            state_at(exchange.after.states(), exchange.pending.key()).last_block2
        } else {
            None
        }),
{
    let key = exchange.pending.key();
    if exchange.resumed_kept.dom().contains(key) {
        assert(exchange.resumed.states().dom().contains(key));
    }
}

/// The limit is within the codec's, the response leaves room for the smallest block, and has no Block2
/// option of its own.
pub open spec fn roomy(limit: nat, response: MessageView) -> bool {
    &&& limit <= MAX_MESSAGE_SIZE
    &&& room(limit, response) >= 16
    &&& values_of(response.options, BLOCK2).len() == 0
}

/// An answer of a roomy response fits the codec, where the response is sent from its start.
proof fn lemma_answer_fits(
    limit: nat,
    state: BlockState,
    response: MessageView,
    step: ResponseStep,
    block1_ack: Option<BlockValue>,
)
    requires
        roomy(limit, response),
        response.well_formed(),
        state.last_block2 matches Some(block) ==> block.num == 0,
        response_step_facts(limit, state, response, step),
    ensures
        answered(response, step.options, step.payload, block1_ack).wire_size() <= limit,
{
    let space = room(limit, response);
    lemma_options_size_nonnegative(response.options, 0);
    if sent_in_blocks(limit, state, response) {
        let block = first_block(limit, state, response);
        let sent = flagged(block, response.payload);
        lemma_first_block_at_start(limit, state, response);
        lemma_with_option_ordered(response.options, BLOCK2, block_bytes(sent));
        lemma_with_option_size(response.options, BLOCK2, block_bytes(sent), 0);
    }
    if let Some(ack) = block1_ack {
        lemma_with_option_size(step.options, BLOCK1, block_bytes(ack), 0);
    }
}

/// A response that is sent from its start begins with block 0, of a size that there is room for where
/// there is room for any.
proof fn lemma_first_block_at_start(limit: nat, state: BlockState, response: MessageView)
    requires
        room(limit, response) > 0,
        state.last_block2 matches Some(block) ==> block.num == 0,
    ensures
        ({
            let block = first_block(limit, state, response);
            &&& block.num == 0
            &&& block.size_exponent < 8
            &&& block.offset() == 0
            &&& room(limit, response) >= 16 ==> block.size() <= room(limit, response)
        }),
{
    let space = room(limit, response);
    if let Some(asked) = state.last_block2 {
        let size = if asked.size() < space {
            asked.size()
        } else {
            space
        };
        assert(asked.offset() == 0);
        assert(0int / size == 0) by (nonlinear_arith)
            requires
                size > 0,
        ;
    }
}

/// A plain request and its answer, both small enough, pass through: the service gets the request as it
/// was sent, and the peer gets the answer as the service gave it, with no block option added.
pub proof fn law_plain_exchange_is_unchanged(exchange: Exchange)
    requires
        exchange.served(),
        passes(exchange.before.limit(), exchange.message),
        room(exchange.before.limit(), exchange.message) >= 0,
        exchange.message.portable(),
        exchange.response.payload.len() < room(exchange.before.limit(), exchange.response),
        exchange.response.portable(),
        exchange.before.limit() <= MAX_MESSAGE_SIZE || exchange.response.wire_size()
            <= MAX_MESSAGE_SIZE,
    ensures
        exchange.forwarded.peer == exchange.datagram.peer,
        decoded(exchange.forwarded.bytes) == Some(exchange.message.as_sent()),
        exchange.answer.peer == exchange.own.peer,
        decoded(exchange.answer.bytes) == Some(exchange.response.as_sent()),
{
    law_plain_request_passes_through(
        exchange.before,
        exchange.datagram,
        exchange.message,
        StepView::Forward(exchange.forwarded, exchange.pending),
        exchange.after,
    );
    lemma_block2_is_remembered(exchange);
    assert(exchange.answered() == exchange.response);
}

/// An upload in blocks: what came in, block by block, what became of each, and what the service kept
/// before and after each. Other requests may come in between.
pub struct Upload {
    pub befores: Seq<BlockService>,
    pub datagrams: Seq<DatagramView>,
    pub messages: Seq<MessageView>,
    pub steps: Seq<StepView>,
    pub afters: Seq<BlockService>,
    pub size_exponent: u8,
}

impl Upload {
    /// The key of the transfer.
    pub open spec fn key(self) -> BlockKey {
        message_key(self.messages[0], self.datagrams[0].peer)
    }

    /// The Block1 value of a block.
    pub open spec fn block(self, i: int) -> BlockValue {
        BlockValue {
            num: i as u16,
            more: i + 1 < self.messages.len(),
            size_exponent: self.size_exponent,
        }
    }

    /// The Block1 value that answers a block.
    pub open spec fn echo(self, i: int) -> BlockValue {
        BlockValue { num: i as u16, more: false, size_exponent: self.size_exponent }
    }

    /// The payloads in order.
    pub open spec fn parts(self) -> Seq<Seq<u8>> {
        Seq::new(self.messages.len(), |i: int| self.messages[i].payload)
    }

    /// The last request, with the whole body in place of its own part.
    pub open spec fn whole(self) -> MessageView {
        MessageView { payload: self.parts().flatten(), ..self.messages.last() }
    }

    /// What the service keeps of the upload before a block.
    pub open spec fn kept_before(self, i: int) -> Option<Seq<u8>> {
        state_at(self.befores[i].states(), self.key()).upload
    }

    /// The block belongs to the transfer, can be answered, and is as large as its size says, save that
    /// the last one may have any size. The last one asks for no block of an earlier answer.
    pub open spec fn fits(self, i: int) -> bool {
        let message = self.messages[i];
        &&& message_key(message, self.datagrams[i].peer) == self.key()
        &&& message.well_formed()
        &&& message.portable()
        &&& response_to(message) is Some
        &&& block_option(message, BLOCK1) == Some(self.block(i))
        &&& negotiable(self.block(i), room(self.befores[i].limit(), message))
        &&& if i + 1 < self.messages.len() {
            message.payload.len() == self.block(i).size()
        } else {
            asks_for_nothing_held(state_at(self.befores[i].states(), self.key()), message)
        }
    }

    /// The block size is within the limit, and the payload within the block size.
    pub open spec fn within(self, i: int) -> bool {
        let size = self.block(i).size();
        &&& size <= room(self.befores[i].limit(), self.messages[i])
        &&& self.messages[i].payload.len() <= size
    }

    /// The block came in while what came before it was still kept.
    pub open spec fn in_time(self, i: int) -> bool {
        exists|kept: BlockStates|
            state_at(kept, self.key()).upload == self.kept_before(i) && #[trigger]
            request_served_from(
                self.befores[i],
                kept,
                self.datagrams[i],
                self.messages[i],
                self.steps[i],
                self.afters[i],
            )
    }

    /// The block is answered `2.31 Continue`, under its own id and token, without the service. A block
    /// size within the limit is echoed with the block's number.
    pub open spec fn continues(self, i: int) -> bool {
        self.steps[i] matches StepView::Reply(reply) && {
            &&& reply.peer == self.datagrams[i].peer
            &&& decoded(reply.bytes) matches Some(response) && {
                &&& response.version == 1
                &&& response.kind == (if self.messages[i].kind == MessageKind::Confirmable {
                    MessageKind::Acknowledgement
                } else {
                    MessageKind::NonConfirmable
                })
                &&& response.code == CONTINUE
                &&& response.message_id == self.messages[i].message_id
                &&& response.token == self.messages[i].token
                &&& response.options.len() == 1
                &&& response.payload.len() == 0
                &&& self.within(i) ==> block_option(response, BLOCK1) == Some(self.echo(i))
            }
        }
    }

    /// The last block is handed on with the whole body. A block size within the limit is put by for the
    /// answer, with the block's number.
    pub open spec fn concludes(self) -> bool {
        self.steps.last() matches StepView::Forward(forwarded, pending) && {
            &&& forwarded.peer == self.datagrams.last().peer
            &&& decoded(forwarded.bytes) == Some(self.whole().as_sent())
            &&& self.within(self.messages.len() - 1) ==> pending.block1_ack == Some(
                self.echo(self.messages.len() - 1),
            )
        }
    }

    /// The blocks come in order, from the first to the last, each in time, and nothing else touches the
    /// transfer.
    pub open spec fn complete(self) -> bool {
        let n = self.messages.len() as int;
        &&& 0 < n <= 4096
        &&& self.befores.len() == n
        &&& self.datagrams.len() == n
        &&& self.steps.len() == n
        &&& self.afters.len() == n
        &&& self.size_exponent < 8
        &&& self.kept_before(0) is None
        &&& forall|i: int| 0 <= i < n ==> #[trigger] self.fits(i) && self.in_time(i)
        &&& forall|i: int|
            0 < i < n ==> #[trigger] self.kept_before(i) == state_at(
                self.afters[i - 1].states(),
                self.key(),
            ).upload
    }
}

/// A block that is put right behind what came before it extends it.
proof fn lemma_placed_behind(upload: Seq<u8>, block: BlockValue, payload: Seq<u8>)
    requires
        upload.len() == block.offset(),
    ensures
        placed(upload, block, payload) == upload + payload,
{
    let end = block.offset() + block.size();
    let grown = upload + Seq::new((end - upload.len()) as nat, |i: int| 0u8);
    assert(grown.take(block.offset()) =~= upload);
    assert(grown.skip(end) =~= Seq::empty());
    assert(placed(upload, block, payload) =~= upload + payload);
}

/// A block size within the limit is echoed as it is, with the block's own number.
proof fn lemma_echo_within(upload: Upload, i: int)
    requires
        0 <= i < 4096,
        upload.size_exponent < 8,
        upload.within(i),
    ensures
        negotiated(
            upload.block(i),
            room(upload.befores[i].limit(), upload.messages[i]),
            upload.messages[i].payload.len() as int,
        ) == upload.echo(i),
        fits_option(upload.echo(i)),
{
    let size = upload.block(i).size();
    assert((i * size) / size == i) by (nonlinear_arith)
        requires
            size > 0,
    ;
    assert(0 <= i * size) by (nonlinear_arith)
        requires
            size > 0,
            i >= 0,
    ;
    assert(exponent_within(size) == upload.size_exponent);
}

/// Before each block, what is kept of the upload is what came before it.
proof fn lemma_upload_so_far(upload: Upload, i: int)
    requires
        upload.complete(),
        0 <= i < upload.messages.len(),
    ensures
        ({
            let so_far = match upload.kept_before(i) {
                Some(bytes) => bytes,
                None => Seq::empty(),
            };
            &&& so_far == upload.parts().take(i).flatten_alt()
            &&& so_far.len() == upload.block(i).offset()
        }),
    decreases i,
{
    let parts = upload.parts();
    let size = size_of_exponent(upload.size_exponent as int);
    if i == 0 {
        assert(parts.take(0) =~= Seq::empty());
        assert(upload.block(0).offset() == 0);
    } else {
        lemma_upload_so_far(upload, i - 1);
        assert(upload.fits(i - 1) && upload.in_time(i - 1));
        assert(upload.kept_before(i) == state_at(
            upload.afters[i - 1].states(),
            upload.key(),
        ).upload);
        let kept = choose|kept: BlockStates|
            state_at(kept, upload.key()).upload == upload.kept_before(i - 1) && #[trigger]
            request_served_from(
                upload.befores[i - 1],
                kept,
                upload.datagrams[i - 1],
                upload.messages[i - 1],
                upload.steps[i - 1],
                upload.afters[i - 1],
            );
        let so_far = upload_so_far(state_at(kept, upload.key()));
        let block = upload.block(i - 1);
        lemma_placed_behind(so_far, block, parts[i - 1]);
        assert(takes_in(
            block,
            room(upload.befores[i - 1].limit(), upload.messages[i - 1]),
            so_far,
        ));
        assert(parts.take(i).drop_last() =~= parts.take(i - 1));
        assert(parts.take(i).last() == parts[i - 1]);
        assert(i * size == (i - 1) * size + size) by (nonlinear_arith);
    }
}

/// What becomes of each block, given what was kept when it came in.
proof fn lemma_upload_step(upload: Upload, i: int, kept: BlockStates)
    requires
        upload.complete(),
        0 <= i < upload.messages.len(),
        state_at(kept, upload.key()).upload == upload.kept_before(i),
        request_served_from(
            upload.befores[i],
            kept,
            upload.datagrams[i],
            upload.messages[i],
            upload.steps[i],
            upload.afters[i],
        ),
    ensures
        i < upload.messages.len() - 1 ==> upload.continues(i),
        i == upload.messages.len() - 1 ==> {
            &&& upload.concludes()
            &&& state_at(upload.afters[i].states(), upload.key()).last_block2 == block_option(
                upload.messages[i],
                BLOCK2,
            )
            &&& upload.steps[i]->Forward_1.key() == upload.key()
        },
{
    let parts = upload.parts();
    lemma_upload_so_far(upload, i);
    assert(upload.fits(i));
    let so_far = upload_so_far(state_at(kept, upload.key()));
    let block = upload.block(i);
    lemma_placed_behind(so_far, block, parts[i]);
    assert(takes_in(block, room(upload.befores[i].limit(), upload.messages[i]), so_far));
    if upload.within(i) {
        lemma_echo_within(upload, i);
    }
    if i < upload.messages.len() - 1 {
        law_intermediate_block_is_continued(
            upload.befores[i],
            kept,
            upload.datagrams[i],
            upload.messages[i],
            block,
            upload.steps[i],
            upload.afters[i],
        );
    } else {
        if kept.dom().contains(upload.key()) {
            assert(upload.befores[i].states().dom().contains(upload.key()));
        }
        law_final_block_forwards_the_upload(
            upload.befores[i],
            kept,
            upload.datagrams[i],
            upload.messages[i],
            block,
            upload.steps[i],
            upload.afters[i],
        );
        assert(parts.take(i) =~= parts.drop_last());
        parts.lemma_flatten_and_flatten_alt_are_equivalent();
        assert(upload.whole() == whole_request(
            kept,
            upload.datagrams[i],
            upload.messages[i],
            block,
        ));
    }
}

/// What becomes of each block of an upload in time.
proof fn lemma_upload_step_in_time(upload: Upload, i: int)
    requires
        upload.complete(),
        0 <= i < upload.messages.len(),
    ensures
        i < upload.messages.len() - 1 ==> upload.continues(i),
        i == upload.messages.len() - 1 ==> upload.concludes(),
{
    assert(upload.fits(i) && upload.in_time(i));
    let kept = choose|kept: BlockStates|
        state_at(kept, upload.key()).upload == upload.kept_before(i) && #[trigger]
        request_served_from(
            upload.befores[i],
            kept,
            upload.datagrams[i],
            upload.messages[i],
            upload.steps[i],
            upload.afters[i],
        );
    lemma_upload_step(upload, i, kept);
}

/// An upload whose blocks come in order reaches the service once, with the last block, as the
/// concatenation of all blocks in order, of any size. Every block before the last is answered
/// `2.31 Continue` without the service. The answers to blocks of a size within the limit carry the
/// block's number.
pub proof fn law_upload_is_reassembled(upload: Upload)
    requires
        upload.complete(),
    ensures
        forall|i: int| 0 <= i < upload.steps.len() - 1 ==> #[trigger] upload.continues(i),
        upload.concludes(),
{
    assert forall|i: int| 0 <= i < upload.steps.len() - 1 implies #[trigger] upload.continues(i) by {
        lemma_upload_step_in_time(upload, i);
    }
    lemma_upload_step_in_time(upload, upload.steps.len() - 1);
}

/// The exchange is that of the last block of the upload.
pub open spec fn ends_with(upload: Upload, exchange: Exchange) -> bool {
    let last = upload.messages.len() - 1;
    &&& exchange.served()
    &&& exchange.before == upload.befores[last]
    &&& exchange.datagram == upload.datagrams[last]
    &&& exchange.message == upload.messages[last]
    &&& StepView::Forward(exchange.forwarded, exchange.pending) == upload.steps[last]
    &&& exchange.after == upload.afters[last]
    &&& state_at(exchange.kept, upload.key()).upload == upload.kept_before(last)
}

/// The service's answer to an upload goes out under its own version, type, code, id and token, with its own
/// values of every option but Block1 and Block2, and with a Block1 option that names the last block and says
/// that no more follow. Where the last block asked for no block of it, a
/// small answer is not cut: it goes out with its own payload and without a Block2 option.
pub proof fn law_upload_is_acknowledged(upload: Upload, exchange: Exchange)
    requires
        upload.complete(),
        upload.within(upload.messages.len() - 1),
        ends_with(upload, exchange),
        exchange.response.well_formed(),
        exchange.response.portable(),
        values_of(exchange.response.options, BLOCK1).len() == 0,
        exchange.answered().wire_size() <= MAX_MESSAGE_SIZE || {
            &&& roomy(exchange.before.limit(), exchange.response)
            &&& block_option(exchange.message, BLOCK2) matches Some(block) ==> block.num == 0
        },
    ensures
        exchange.answer.peer == exchange.own.peer,
        decoded(exchange.answer.bytes) matches Some(sent) && {
            &&& same_header(sent, exchange.response)
            &&& same_other_options(sent, exchange.response)
            &&& values_of(sent.options, BLOCK1).len() == 1
            &&& block_option(sent, BLOCK1) == Some(upload.echo(upload.messages.len() - 1))
            &&& block_option(exchange.message, BLOCK2) is None && exchange.response.payload.len()
                < room(exchange.before.limit(), exchange.response) ==> {
                &&& sent.payload == exchange.response.as_sent().payload
                &&& values_of(sent.options, BLOCK2) == values_of(exchange.response.options, BLOCK2)
            }
        },
{
    let last = upload.messages.len() - 1;
    let ack = upload.echo(last);
    lemma_upload_step(upload, last, exchange.kept);
    lemma_echo_within(upload, last);
    lemma_block2_is_remembered(exchange);
    if exchange.answered().wire_size() > MAX_MESSAGE_SIZE {
        lemma_answer_fits(
            exchange.resumed.limit(),
            state_at(exchange.resumed_kept, exchange.pending.key()),
            exchange.response,
            response_step(
                exchange.resumed.limit(),
                state_at(exchange.resumed_kept, exchange.pending.key()),
                exchange.response,
            ),
            exchange.pending.block1_ack,
        );
    }
    law_block1_is_echoed(
        exchange.resumed,
        exchange.resumed_kept,
        exchange.pending,
        exchange.own,
        exchange.response,
        exchange.answer,
        exchange.end,
        ack,
    );
    if block_option(exchange.message, BLOCK2) is None && exchange.response.payload.len() < room(
        exchange.before.limit(),
        exchange.response,
    ) {
        lemma_values_of_others(exchange.response.options, BLOCK1, block_bytes(ack), BLOCK2);
        lemma_with_option_short(exchange.response.options, BLOCK1, block_bytes(ack));
    }
}

/// A response that is handed out in blocks: the exchange that it comes from, then the requests for the
/// further blocks, what became of each, and what the service kept before and after each. Other requests
/// may come in between.
pub struct Download {
    pub start: Exchange,
    pub befores: Seq<BlockService>,
    pub datagrams: Seq<DatagramView>,
    pub messages: Seq<MessageView>,
    pub steps: Seq<StepView>,
    pub afters: Seq<BlockService>,
}

impl Download {
    /// The key of the transfer.
    pub open spec fn key(self) -> BlockKey {
        self.start.pending.key()
    }

    /// The response that is handed out.
    pub open spec fn response(self) -> MessageView {
        self.start.response
    }

    /// The Block2 value of the first request.
    pub open spec fn first_asked(self) -> Option<BlockValue> {
        block_option(self.start.message, BLOCK2)
    }

    /// The exponent of the block size: of the largest that there is room for, and that the first request
    /// asks for where it does.
    pub open spec fn size_exponent(self) -> u8 {
        let state = BlockState { upload: None, response: None, last_block2: self.first_asked() };
        first_block(self.start.before.limit(), state, self.response()).size_exponent
    }

    /// The number of blocks.
    pub open spec fn count(self) -> nat {
        self.messages.len() + 1
    }

    /// The Block2 value of a block.
    pub open spec fn block(self, i: int) -> BlockValue {
        BlockValue {
            num: i as u16,
            more: i < self.messages.len(),
            size_exponent: self.size_exponent(),
        }
    }

    /// The Block2 value of the request at the given place, which asks for the block behind that place.
    pub open spec fn asked(self, i: int) -> Option<BlockValue> {
        block_option(self.messages[i], BLOCK2)
    }

    /// What the service keeps of the response before a request.
    pub open spec fn kept_before(self, i: int) -> Option<MessageView> {
        state_at(self.befores[i].states(), self.key()).response
    }

    /// The request asks for its block of the response, which can be sent.
    pub open spec fn fits(self, i: int) -> bool {
        let message = self.messages[i];
        &&& message_key(message, self.datagrams[i].peer) == self.key()
        &&& self.asked(i) matches Some(block) && {
            &&& block.num == i + 1
            &&& block.size_exponent == self.size_exponent()
            &&& asks_for(self.befores[i].limit(), message, block)
            &&& (self.start.before.limit() < MAX_MESSAGE_SIZE && roomy(
                self.start.before.limit(),
                self.response(),
            )) || block_reply(self.response(), message, block).wire_size() <= MAX_MESSAGE_SIZE
        }
    }

    /// The request came in while the response was still kept.
    pub open spec fn in_time(self, i: int) -> bool {
        exists|kept: BlockStates|
            state_at(kept, self.key()).response == self.kept_before(i) && #[trigger]
            request_served_from(
                self.befores[i],
                kept,
                self.datagrams[i],
                self.messages[i],
                self.steps[i],
                self.afters[i],
            )
    }

    /// A request brings a response that goes out in blocks: one that asks for no block brings a response
    /// that is too large for one message, or one asks for block 0 while nothing is being handed out.
    pub open spec fn begins(self) -> bool {
        let limit = self.start.before.limit();
        let message = self.start.message;
        let response = self.response();
        &&& self.start.served()
        &&& values_of(message.options, BLOCK1).len() == 0
        &&& message.payload.len() < room(limit, message)
        &&& message.portable()
        &&& response.well_formed()
        &&& response.portable()
        &&& response.code != EMPTY
        &&& values_of(response.options, BLOCK2).len() == 0
        &&& 0 < room(limit, response) < 4096
        &&& match self.first_asked() {
            None => response.payload.len() >= room(limit, response),
            Some(block) => {
                &&& block.num == 0
                &&& response.payload.len() > 0
                &&& message_key(message, self.start.datagram.peer) == self.key()
                &&& state_at(self.start.before.states(), self.key()).response is None
                &&& self.start.resumed_kept.contains_key(self.key())
            },
        }
        &&& roomy(limit, response) || self.start.answered().wire_size() <= MAX_MESSAGE_SIZE
    }

    /// The further blocks are asked for in order, up to the last, each in time, and nothing else touches
    /// the transfer.
    pub open spec fn complete(self) -> bool {
        let n = self.messages.len() as int;
        let size = size_of_exponent(self.size_exponent() as int);
        &&& self.begins()
        &&& n < 4096
        &&& n * size < self.response().payload.len() <= (n + 1) * size
        &&& self.befores.len() == n
        &&& self.datagrams.len() == n
        &&& self.steps.len() == n
        &&& self.afters.len() == n
        &&& forall|i: int| 0 <= i < n ==> #[trigger] self.fits(i) && self.in_time(i)
        &&& forall|i: int|
            0 <= i < n ==> #[trigger] self.kept_before(i) == state_at(
                (if i == 0 {
                    self.start.end
                } else {
                    self.afters[i - 1]
                }).states(),
                self.key(),
            ).response
    }

    /// The bytes that go out for the block with the given number.
    pub open spec fn sent(self, i: int) -> Seq<u8> {
        if i == 0 {
            self.start.answer.bytes
        } else {
            match self.steps[i - 1] {
                StepView::Reply(reply) => reply.bytes,
                _ => Seq::empty(),
            }
        }
    }

    /// What goes out for a block is a message with that block's Block2 value and part of the body. It has
    /// the version, the type and the code of the response, and its values of every option but Block1 and
    /// Block2, under the id and the token of the response or, for a further block, of the request for it.
    pub open spec fn carries(self, i: int) -> bool {
        decoded(self.sent(i)) matches Some(message) && {
            &&& message.version == self.response().version
            &&& message.kind == self.response().kind
            &&& message.code == self.response().code
            &&& message.message_id == (if i == 0 {
                self.response().message_id
            } else {
                self.messages[i - 1].message_id
            })
            &&& message.token == (if i == 0 {
                self.response().token
            } else {
                self.messages[i - 1].token
            })
            &&& same_other_options(message, self.response())
            &&& block_option(message, BLOCK2) == Some(self.block(i))
            &&& message.payload == chunk(self.response().payload, self.block(i))
        }
    }

    /// The payloads that the client reads, in order.
    pub open spec fn received(self) -> Seq<Seq<u8>> {
        Seq::new(self.count(), |i: int| decoded(self.sent(i)).unwrap().payload)
    }
}

/// Every block but the last is flagged with more to follow.
proof fn lemma_download_flag(download: Download, block: BlockValue)
    requires
        download.complete(),
        block.num <= download.messages.len(),
        block.size_exponent == download.size_exponent(),
    ensures
        flagged(block, download.response().payload) == download.block(block.num as int),
        block.offset() < download.response().payload.len(),
{
    let n = download.messages.len() as int;
    let k = block.num as int;
    let size = size_of_exponent(download.size_exponent() as int);
    assert(k * size <= n * size) by (nonlinear_arith)
        requires
            k <= n,
            size > 0,
    ;
    assert(k * size + size == (k + 1) * size) by (nonlinear_arith);
    if k < n {
        assert((k + 1) * size <= n * size) by (nonlinear_arith)
            requires
                k + 1 <= n,
                size > 0,
        ;
    }
}

/// The first block goes out, and the response is kept where more blocks follow.
proof fn lemma_download_begins(download: Download)
    requires
        download.complete(),
    ensures
        download.carries(0),
        download.messages.len() > 0 ==> state_at(
            download.start.end.states(),
            download.key(),
        ).response == Some(download.response()),
{
    let start = download.start;
    let limit = start.before.limit();
    let key = download.key();
    let state = state_at(start.resumed_kept, key);
    lemma_opening_is_remembered(download);
    lemma_first_block_at_start(limit, state, start.response);
    let block = first_block(limit, state, start.response);
    lemma_download_flag(download, block);
    assert(sent_in_blocks(limit, state, start.response));
    if start.answered().wire_size() > MAX_MESSAGE_SIZE {
        lemma_answer_fits(
            limit,
            state,
            start.response,
            response_step(limit, state, start.response),
            start.pending.block1_ack,
        );
    }
    law_large_response_is_cut(
        start.resumed,
        start.resumed_kept,
        start.pending,
        start.own,
        start.response,
        start.answer,
        start.end,
    );
}

/// When the first answer comes in, the Block2 value of the first request is remembered.
proof fn lemma_opening_is_remembered(download: Download)
    requires
        download.begins(),
    ensures
        state_at(download.start.resumed_kept, download.key()).last_block2
            == download.first_asked(),
{
    let start = download.start;
    let key = message_key(start.message, start.datagram.peer);
    lemma_block2_is_remembered(start);
    if start.kept.dom().contains(key) {
        assert(start.before.states().dom().contains(key));
    }
    if download.first_asked() is None {
        law_plain_request_passes_through(
            start.before,
            start.datagram,
            start.message,
            StepView::Forward(start.forwarded, start.pending),
            start.after,
        );
    }
}

/// A block of a response that there is room for fits the codec, under any token.
proof fn lemma_block_reply_fits(
    limit: nat,
    held: MessageView,
    message: MessageView,
    block: BlockValue,
)
    requires
        limit < MAX_MESSAGE_SIZE,
        held.well_formed(),
        message.token.len() <= 8,
        block.size() <= room(limit, held),
        block.offset() < held.payload.len(),
    ensures
        block_reply(held, message, block).wire_size() <= MAX_MESSAGE_SIZE,
{
    lemma_with_option_size(
        held.options,
        BLOCK2,
        block_bytes(flagged(block, held.payload)),
        0,
    );
    assert(0 <= block.num * block.size()) by (nonlinear_arith)
        requires
            block.size() > 0,
    ;
}

/// Before each request, the response is kept; the request is answered with its block.
proof fn lemma_download_step(download: Download, i: int)
    requires
        download.complete(),
        0 <= i < download.messages.len(),
    ensures
        download.kept_before(i) == Some(download.response()),
        download.steps[i] is Reply,
        download.carries(i + 1),
        i + 1 < download.messages.len() ==> state_at(
            download.afters[i].states(),
            download.key(),
        ).response == Some(download.response()),
    decreases i,
{
    let response = download.response();
    assert(download.fits(i) && download.in_time(i));
    let block = download.asked(i).unwrap();
    if i == 0 {
        lemma_download_begins(download);
    } else {
        lemma_download_step(download, i - 1);
    }
    assert(download.kept_before(i) == Some(response));
    let kept = choose|kept: BlockStates|
        state_at(kept, download.key()).response == download.kept_before(i) && #[trigger]
        request_served_from(
            download.befores[i],
            kept,
            download.datagrams[i],
            download.messages[i],
            download.steps[i],
            download.afters[i],
        );
    lemma_download_flag(download, block);
    if block_reply(response, download.messages[i], block).wire_size() > MAX_MESSAGE_SIZE {
        let state = BlockState {
            upload: None,
            response: None,
            last_block2: download.first_asked(),
        };
        lemma_first_block_at_start(download.start.before.limit(), state, response);
        lemma_block_reply_fits(
            download.start.before.limit(),
            response,
            download.messages[i],
            block,
        );
    }
    law_kept_response_is_served(
        download.befores[i],
        kept,
        download.datagrams[i],
        download.messages[i],
        block,
        response,
        download.steps[i],
        download.afters[i],
    );
}

/// What a client reads block by block of an answer is, put together in order, the answer's payload. Each
/// message carries the number of its block and says whether more follow. The
/// service is called for none of the further blocks.
pub proof fn law_download_is_complete(download: Download)
    requires
        download.complete(),
    ensures
        forall|i: int|
            0 <= i < download.steps.len() ==> (#[trigger] download.steps[i]) is Reply,
        forall|i: int| 0 <= i < download.count() ==> #[trigger] download.carries(i),
        download.received().flatten() == download.response().payload,
{
    let exponent = download.size_exponent();
    let body = download.response().payload;
    let blocks = blocks_of(body, exponent, download.count());
    assert forall|i: int| 0 <= i < download.steps.len() implies (
    #[trigger] download.steps[i]) is Reply by {
        lemma_download_step(download, i);
    }
    assert forall|i: int| 0 <= i < download.count() implies #[trigger] download.carries(i) by {
        if i == 0 {
            lemma_download_begins(download);
        } else {
            lemma_download_step(download, i - 1);
        }
    }
    assert forall|i: int| 0 <= i < download.count() implies download.received()[i] == blocks[i] by {
        assert(download.carries(i));
    }
    assert(download.received() =~= blocks);
    law_blocks_make_up_the_body(body, exponent, download.count());
}

/// One call of a service, with what was left of the transfers that it kept.
pub enum Move {
    Request(BlockStates, DatagramView, MessageView, StepView),
    Response(BlockStates, PendingView, DatagramView, MessageView, DatagramView),
    LookUp(BlockStates, BlockKey),
}

impl Move {
    /// What was left of the transfers.
    pub open spec fn kept(self) -> BlockStates {
        match self {
            Move::Request(kept, _, _, _) => kept,
            Move::Response(kept, _, _, _, _) => kept,
            Move::LookUp(kept, _) => kept,
        }
    }

    /// Both calls are made with the same arguments.
    pub open spec fn asks_like(self, other: Move) -> bool {
        match (self, other) {
            (
                Move::Request(_, datagram, message, _),
                Move::Request(_, other_datagram, other_message, _),
            ) => datagram == other_datagram && message == other_message,
            (
                Move::Response(_, pending, datagram, response, _),
                Move::Response(_, other_pending, other_datagram, other_response, _),
            ) => pending == other_pending && datagram == other_datagram && response
                == other_response,
            (Move::LookUp(_, key), Move::LookUp(_, other_key)) => key == other_key,
            _ => false,
        }
    }

    /// Both calls give the same result.
    pub open spec fn gives_like(self, other: Move) -> bool {
        match (self, other) {
            (Move::Request(_, _, _, step), Move::Request(_, _, _, other_step)) => step
                == other_step,
            (
                Move::Response(_, _, _, _, answer),
                Move::Response(_, _, _, _, other_answer),
            ) => answer == other_answer,
            (Move::LookUp(_, _), Move::LookUp(_, _)) => true,
            _ => false,
        }
    }

    /// The key of the transfer that the call is about.
    pub open spec fn key(self) -> BlockKey {
        match self {
            Move::Request(_, datagram, message, _) => message_key(message, datagram.peer),
            Move::Response(_, pending, _, _, _) => pending.key(),
            Move::LookUp(_, key) => key,
        }
    }

    /// The call took the service from one state to another.
    pub open spec fn taken(self, before: BlockService, after: BlockService) -> bool {
        match self {
            Move::Request(kept, datagram, message, step) => request_served_from(
                before,
                kept,
                datagram,
                message,
                step,
                after,
            ),
            Move::Response(kept, pending, datagram, response, answer) => response_served_from(
                before,
                kept,
                pending,
                datagram,
                response,
                answer,
                after,
            ),
            Move::LookUp(kept, key) => refreshed(before.states(), kept, key, after.states()),
        }
    }
}

/// A run of calls of one service, with its states before, between and after them.
pub struct Run {
    pub services: Seq<BlockService>,
    pub moves: Seq<Move>,
}

impl Run {
    /// Each call takes the service from its state to the next.
    pub open spec fn valid(self) -> bool {
        &&& self.services.len() == self.moves.len() + 1
        &&& forall|j: int|
            0 <= j < self.services.len() ==> (#[trigger] self.services[j]).limit()
                == self.services[0].limit()
        &&& forall|j: int|
            0 <= j < self.moves.len() ==> (#[trigger] self.moves[j]).taken(
                self.services[j],
                self.services[j + 1],
            )
    }

    /// The requests at the given places, as an upload.
    pub open spec fn upload(self, places: Seq<int>, size_exponent: u8) -> Upload {
        Upload {
            befores: Seq::new(places.len(), |i: int| self.services[places[i]]),
            datagrams: Seq::new(places.len(), |i: int| self.moves[places[i]]->Request_1),
            messages: Seq::new(places.len(), |i: int| self.moves[places[i]]->Request_2),
            steps: Seq::new(places.len(), |i: int| self.moves[places[i]]->Request_3),
            afters: Seq::new(places.len(), |i: int| self.services[places[i] + 1]),
            size_exponent,
        }
    }

    /// The places are those of requests, in order.
    pub open spec fn in_order(self, places: Seq<int>) -> bool {
        &&& forall|i: int|
            0 <= i < places.len() ==> 0 <= #[trigger] places[i] < self.moves.len()
                && self.moves[places[i]] is Request
        &&& forall|i: int, j: int| 0 <= i < j < places.len() ==> places[i] < places[j]
    }

    /// Between the places, all calls are for other peers.
    pub open spec fn others_between(self, places: Seq<int>, peer: Seq<char>) -> bool {
        forall|i: int, j: int|
            #![trigger places[i], self.moves[j]]
            0 < i < places.len() && places[i - 1] < j < places[i] ==> self.moves[j].key().peer
                != peer
    }

    /// From the first place to the last, the transfer does not expire.
    pub open spec fn lasts(self, places: Seq<int>, key: BlockKey) -> bool {
        forall|j: int|
            places[0] < j <= places.last() ==> (#[trigger] self.moves[j]).kept().contains_key(key)
    }
}

/// Calls for other transfers leave a transfer as it is, as long as it does not expire.
proof fn lemma_others_leave_a_transfer(run: Run, from: int, to: int, key: BlockKey)
    requires
        run.valid(),
        0 <= from <= to < run.services.len(),
        forall|j: int|
            from <= j < to ==> (#[trigger] run.moves[j]).key() != key
                && run.moves[j].kept().contains_key(key),
    ensures
        state_at(run.services[to].states(), key) == state_at(run.services[from].states(), key),
    decreases to - from,
{
    if from < to {
        lemma_others_leave_a_transfer(run, from, to - 1, key);
        let m = run.moves[to - 1];
        assert(m.taken(run.services[to - 1], run.services[to]));
        assert(m.key() != key && m.kept().dom().contains(key));
        assert(run.services[to - 1].states().dom().contains(key));
    }
}

/// The places are in order within the run, and hold calls for one transfer.
pub open spec fn places_of(run: Run, places: Seq<int>, key: BlockKey) -> bool {
    &&& forall|i: int|
        0 <= i < places.len() ==> 0 <= #[trigger] places[i] < run.moves.len()
            && run.moves[places[i]].key() == key
    &&& forall|i: int, j: int| 0 <= i < j < places.len() ==> places[i] < places[j]
}

/// Two calls with the same arguments on what is kept alike of their transfer give the same result, and
/// leave the transfer alike.
proof fn lemma_calls_are_alike(
    one: Move,
    one_before: BlockService,
    one_after: BlockService,
    two: Move,
    two_before: BlockService,
    two_after: BlockService,
)
    requires
        one.taken(one_before, one_after),
        two.taken(two_before, two_after),
        one_before.limit() == two_before.limit(),
        one.asks_like(two),
        state_at(one.kept(), one.key()) == state_at(two.kept(), two.key()),
    ensures
        one.gives_like(two),
        state_at(one_after.states(), one.key()) == state_at(two_after.states(), two.key()),
{
}

/// What becomes of a peer's requests and of the answers to them does not depend on other peers: in two
/// runs of one limit with the same calls for a transfer, and any calls for other peers in between, these
/// calls give the same results, and leave the transfer alike.
pub proof fn law_other_peers_make_no_difference(
    one: Run,
    one_places: Seq<int>,
    two: Run,
    two_places: Seq<int>,
    key: BlockKey,
    i: int,
)
    requires
        one.valid(),
        two.valid(),
        one.services[0].limit() == two.services[0].limit(),
        one_places.len() == two_places.len(),
        0 <= i < one_places.len(),
        places_of(one, one_places, key),
        places_of(two, two_places, key),
        one.others_between(one_places, key.peer),
        two.others_between(two_places, key.peer),
        one.lasts(one_places, key),
        two.lasts(two_places, key),
        forall|k: int|
            0 <= k < one_places.len() ==> (#[trigger] one.moves[one_places[k]]).asks_like(
                two.moves[two_places[k]],
            ),
        state_at(one.moves[one_places[0]].kept(), key) == state_at(
            two.moves[two_places[0]].kept(),
            key,
        ),
    ensures
        one.moves[one_places[i]].gives_like(two.moves[two_places[i]]),
        state_at(one.services[one_places[i] + 1].states(), key) == state_at(
            two.services[two_places[i] + 1].states(),
            key,
        ),
    decreases i,
{
    let a = one_places[i];
    let b = two_places[i];
    if i > 0 {
        law_other_peers_make_no_difference(one, one_places, two, two_places, key, i - 1);
        lemma_kept_from_the_call_before(one, one_places, key, i);
        lemma_kept_from_the_call_before(two, two_places, key, i);
    }
    assert(one.moves[a].taken(one.services[a], one.services[a + 1]));
    assert(two.moves[b].taken(two.services[b], two.services[b + 1]));
    assert(one.services[a].limit() == two.services[b].limit());
    assert(one.moves[one_places[i]].asks_like(two.moves[two_places[i]]));
    lemma_calls_are_alike(
        one.moves[a],
        one.services[a],
        one.services[a + 1],
        two.moves[b],
        two.services[b],
        two.services[b + 1],
    );
}

/// What a call finds of its transfer is what the call before it left.
proof fn lemma_kept_from_the_call_before(run: Run, places: Seq<int>, key: BlockKey, i: int)
    requires
        run.valid(),
        places_of(run, places, key),
        run.others_between(places, key.peer),
        run.lasts(places, key),
        0 < i < places.len(),
    ensures
        state_at(run.moves[places[i]].kept(), key) == state_at(
            run.services[places[i - 1] + 1].states(),
            key,
        ),
{
    let from = places[i - 1] + 1;
    let to = places[i];
    assert(places[i - 1] < places[i]);
    assert(places[0] <= places[i - 1]);
    assert(places[i] <= places.last());
    assert forall|j: int| from <= j < to implies (#[trigger] run.moves[j]).key() != key
        && run.moves[j].kept().contains_key(key) by {
        assert(places[i - 1] < j < places[i]);
    }
    lemma_others_leave_a_transfer(run, from, to, key);
    let m = run.moves[to];
    assert(m.taken(run.services[to], run.services[to + 1]));
    assert(m.kept().dom().contains(key));
    assert(run.services[to].states().dom().contains(key));
}

/// Uploads of several peers do not mix, however their blocks and other calls come in between: the service
/// gets of each peer exactly that peer's blocks in order.
pub proof fn law_uploads_of_peers_do_not_mix(run: Run, places: Seq<int>, size_exponent: u8)
    requires
        run.valid(),
        0 < places.len() <= 4096,
        size_exponent < 8,
        run.in_order(places),
        ({
            let upload = run.upload(places, size_exponent);
            &&& run.others_between(places, upload.key().peer)
            &&& run.lasts(places, upload.key())
            &&& upload.kept_before(0) is None
            &&& forall|i: int| 0 <= i < places.len() ==> #[trigger] upload.fits(i)
        }),
    ensures
        run.upload(places, size_exponent).complete(),
        ({
            let upload = run.upload(places, size_exponent);
            &&& forall|i: int| 0 <= i < places.len() - 1 ==> #[trigger] upload.continues(i)
            &&& upload.concludes()
        }),
{
    let upload = run.upload(places, size_exponent);
    let key = upload.key();
    assert forall|i: int| 0 <= i < places.len() implies #[trigger] upload.fits(i)
        && upload.in_time(i) by {
        let j = places[i];
        let m = run.moves[j];
        assert(m.taken(run.services[j], run.services[j + 1]));
        assert(m is Request);
        let kept = m.kept();
        if i > 0 {
            assert(places[0] < places[i]);
            assert(places[i] <= places.last());
            assert(kept.contains_key(key));
        }
        if kept.dom().contains(key) {
            assert(run.services[j].states().dom().contains(key));
        }
        assert(state_at(kept, key).upload == upload.kept_before(i));
        assert(request_served_from(
            upload.befores[i],
            kept,
            upload.datagrams[i],
            upload.messages[i],
            upload.steps[i],
            upload.afters[i],
        ));
    }
    assert forall|i: int| 0 < i < places.len() implies #[trigger] upload.kept_before(i)
        == state_at(upload.afters[i - 1].states(), key).upload by {
        let from = places[i - 1] + 1;
        let to = places[i];
        assert(places[i - 1] < places[i]);
        assert(places[0] <= places[i - 1]);
        assert(places[i] <= places.last());
        assert forall|j: int| from <= j < to implies (#[trigger] run.moves[j]).key() != key
            && run.moves[j].kept().contains_key(key) by {
            assert(places[i - 1] < j < places[i]);
        }
        lemma_others_leave_a_transfer(run, from, to, key);
    }
    law_upload_is_reassembled(upload);
}

} // verus!
