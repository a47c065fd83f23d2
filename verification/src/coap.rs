//! CoAP messages as plain values, and the codec calls that turn them into wire
//! bytes and back.
use crate::coap::MessageKind::{Acknowledgement, Confirmable, NonConfirmable, Reset};
use vstd::prelude::*;
use vstd::utf8::{decode_utf8, valid_utf8};

verus! {

/// Option number of `Location-Path`.
pub const LOCATION_PATH: u16 = 8;

/// Option number of `Uri-Path`.
pub const URI_PATH: u16 = 11;

/// Option number of `Block2`.
pub const BLOCK2: u16 = 23;

/// Option number of `Block1`.
pub const BLOCK1: u16 = 27;

/// Code of a message that is neither a request nor a response.
pub const EMPTY: u8 = 0x00;

/// Code `2.01 Created`.
pub const CREATED: u8 = 0x41;

/// Code `2.05 Content`.
pub const CONTENT: u8 = 0x45;

/// Code `2.31 Continue`.
pub const CONTINUE: u8 = 0x5F;

/// Code `4.08 Request Entity Incomplete`.
pub const REQUEST_ENTITY_INCOMPLETE: u8 = 0x88;

/// Code `4.13 Request Entity Too Large`.
pub const REQUEST_ENTITY_TOO_LARGE: u8 = 0x8D;

/// Code `5.00 Internal Server Error`.
pub const INTERNAL_SERVER_ERROR: u8 = 0xA0;

/// The largest message, in bytes, that the codec writes for the wire (`coap_lite` without its `udp`
/// feature).
pub const MAX_MESSAGE_SIZE: usize = 1280;

/// The message types of RFC 7252 §3.
#[derive(Debug, Clone, Copy, PartialEq, Eq, Structural)]
pub enum MessageKind {
    Confirmable,
    NonConfirmable,
    Acknowledgement,
    Reset,
}

/// The request methods that the codec tells apart.
#[derive(Debug, Clone, Copy, PartialEq, Eq, Structural)]
pub enum Method {
    Get,
    Post,
    Put,
    Delete,
    Fetch,
    Patch,
    IPatch,
    Unknown,
}

/// A CoAP message.
///
/// `options` holds one entry for each option instance, in the order in which
/// they stand on the wire: by number, and in order of appearance within a number.
#[derive(Debug)]
pub struct CoapMessage {
    pub version: u8,
    pub kind: MessageKind,
    pub code: u8,
    pub message_id: u16,
    pub token: Vec<u8>,
    pub options: Vec<(u16, Vec<u8>)>,
    pub payload: Vec<u8>,
}

/// What a [`CoapMessage`] says.
#[verifier::ext_equal]
pub struct MessageView {
    pub version: u8,
    pub kind: MessageKind,
    pub code: u8,
    pub message_id: u16,
    pub token: Seq<u8>,
    pub options: Seq<(u16, Seq<u8>)>,
    pub payload: Seq<u8>,
}

/// The option list of a message by value.
pub open spec fn options_view(options: Seq<(u16, Vec<u8>)>) -> Seq<(u16, Seq<u8>)> {
    Seq::new(options.len(), |i: int| (options[i].0, options[i].1@))
}

impl View for CoapMessage {
    type V = MessageView;

    open spec fn view(&self) -> MessageView {
        MessageView {
            version: self.version,
            kind: self.kind,
            code: self.code,
            message_id: self.message_id,
            token: self.token@,
            options: options_view(self.options@),
            payload: self.payload@,
        }
    }
}

/// A list of byte strings by value.
pub open spec fn byte_strings(values: Seq<Vec<u8>>) -> Seq<Seq<u8>> {
    Seq::new(values.len(), |i: int| values[i]@)
}

/// The options stand in order of their numbers.
pub open spec fn ordered(options: Seq<(u16, Seq<u8>)>) -> bool {
    forall|i: int, j: int| 0 <= i <= j < options.len() ==> options[i].0 <= options[j].0
}

/// The option at a place has a delta and a length below the two-byte form.
pub open spec fn short_form(options: Seq<(u16, Seq<u8>)>, i: int) -> bool {
    &&& options[i].1.len() < 269
    &&& options[i].0 - (if i == 0 {
        0
    } else {
        options[i - 1].0 as int
    }) < 269
}

/// Every option delta and every option length is below the two-byte form.
pub open spec fn short_forms(options: Seq<(u16, Seq<u8>)>) -> bool {
    forall|i: int| 0 <= i < options.len() ==> #[trigger] short_form(options, i)
}

/// The length of the extension that an option delta or an option length of `n` needs.
pub open spec fn extension_size(n: int) -> int {
    if n <= 12 {
        0
    } else if n < 269 {
        1
    } else {
        2
    }
}

/// The bytes that the options take on the wire when the last option number written is `last`.
pub open spec fn options_size(options: Seq<(u16, Seq<u8>)>, last: int) -> int
    decreases options.len(),
{
    if options.len() == 0 {
        0
    } else {
        let (number, value) = options[0];
        1 + extension_size(number - last) + extension_size(value.len() as int) + value.len()
            + options_size(options.drop_first(), number as int)
    }
}

impl MessageView {
    /// The message fits the format: two bits of version, a token of at most eight bytes, and
    /// options in order.
    pub open spec fn well_formed(self) -> bool {
        &&& self.version < 4
        &&& self.token.len() <= 8
        &&& ordered(self.options)
    }

    /// No option delta and no option length needs the two-byte form, which `coap_lite` writes alike
    /// on every target but reads right on little-endian ones only.
    pub open spec fn portable(self) -> bool {
        short_forms(self.options)
    }

    /// The size of the message without its payload.
    pub open spec fn overhead(self) -> int {
        4 + self.token.len() + options_size(self.options, 0)
    }

    /// The size that the codec holds against its limit: header, token, options, payload, and the
    /// payload marker where there is one.
    pub open spec fn wire_size(self) -> int {
        self.overhead() + self.payload.len() + (if self.code != EMPTY && self.payload.len() > 0 {
            1int
        } else {
            0int
        })
    }

    /// What a receiver reads: an empty message carries no payload.
    pub open spec fn as_sent(self) -> MessageView {
        MessageView {
            payload: if self.code == EMPTY {
                Seq::<u8>::empty()
            } else {
                self.payload
            },
            ..self
        }
    }
}

/// The method that a message code asks for.
pub open spec fn method_of(code: u8) -> Method {
    if code == 1 {
        Method::Get
    } else if code == 2 {
        Method::Post
    } else if code == 3 {
        Method::Put
    } else if code == 4 {
        Method::Delete
    } else if code == 5 {
        Method::Fetch
    } else if code == 6 {
        Method::Patch
    } else if code == 7 {
        Method::IPatch
    } else {
        Method::Unknown
    }
}

/// The options with one more value of `number`, which follows those that are there.
pub open spec fn with_option(
    options: Seq<(u16, Seq<u8>)>,
    number: u16,
    value: Seq<u8>,
) -> Seq<(u16, Seq<u8>)>
    decreases options.len(),
{
    if options.len() > 0 && options.last().0 > number {
        with_option(options.drop_last(), number, value).push(options.last())
    } else {
        options.push((number, value))
    }
}

/// The values of the options with the given number, in order.
pub open spec fn values_of(options: Seq<(u16, Seq<u8>)>, number: u16) -> Seq<Seq<u8>>
    decreases options.len(),
{
    if options.len() == 0 {
        Seq::empty()
    } else if options.last().0 == number {
        values_of(options.drop_last(), number).push(options.last().1)
    } else {
        values_of(options.drop_last(), number)
    }
}

/// The first value of the option with the given number.
pub open spec fn first_value(options: Seq<(u16, Seq<u8>)>, number: u16) -> Option<Seq<u8>> {
    let values = values_of(options, number);
    if values.len() == 0 {
        None
    } else {
        Some(values[0])
    }
}

/// The segments that are UTF-8, as text, with a slash between each two.
pub open spec fn path_text(segments: Seq<Seq<u8>>) -> Seq<char>
    decreases segments.len(),
{
    if segments.len() == 0 {
        Seq::empty()
    } else if !valid_utf8(segments.last()) {
        path_text(segments.drop_last())
    } else if no_text(segments.drop_last()) {
        decode_utf8(segments.last())
    } else {
        path_text(segments.drop_last()).push('/') + decode_utf8(segments.last())
    }
}

/// No segment is UTF-8.
pub open spec fn no_text(segments: Seq<Seq<u8>>) -> bool {
    forall|i: int| 0 <= i < segments.len() ==> !valid_utf8(#[trigger] segments[i])
}

/// The blank answer to a message: an acknowledgement to a confirmable message, a
/// non-confirmable message to a non-confirmable one, with the message's own id and token; none to
/// an acknowledgement or a reset.
pub open spec fn response_to(message: MessageView) -> Option<MessageView> {
    let response = MessageView {
        version: 1,
        kind: MessageKind::Acknowledgement,
        code: CONTENT,
        message_id: message.message_id,
        token: message.token,
        options: Seq::empty(),
        payload: Seq::empty(),
    };
    match message.kind {
        MessageKind::Confirmable => Some(response),
        MessageKind::NonConfirmable => Some(
            MessageView { kind: MessageKind::NonConfirmable, ..response },
        ),
        _ => None,
    }
}

/// The message type that a header's two type bits stand for.
pub open spec fn kind_of_bits(bits: int) -> MessageKind {
    if bits == 0 {
        MessageKind::Confirmable
    } else if bits == 1 {
        MessageKind::NonConfirmable
    } else if bits == 2 {
        MessageKind::Acknowledgement
    } else {
        MessageKind::Reset
    }
}

/// The four header bytes and the token of a message, as they stand at the start of `bytes`.
pub open spec fn starts_with_header(bytes: Seq<u8>, message: MessageView) -> bool {
    let token_length = bytes[0] as int % 16;
    &&& 4 + token_length <= bytes.len()
    &&& message.version == bytes[0] as int / 64
    &&& message.kind == kind_of_bits((bytes[0] as int / 16) % 4)
    &&& message.code == bytes[1]
    &&& message.message_id == bytes[2] as int * 256 + bytes[3] as int
    &&& message.token == bytes.subrange(4, 4 + token_length)
}

/// What `coap_lite::Packet::from_bytes` reads in a datagram; `None` where it finds an error.
pub uninterp spec fn decoded(bytes: Seq<u8>) -> Option<MessageView>;

/// What `coap_lite::Packet::to_bytes` writes for a message; `None` where it finds an error.
pub uninterp spec fn encoded(message: MessageView) -> Option<Seq<u8>>;

/// What `coap_lite::Packet::to_bytes_unlimited` writes for a message.
pub uninterp spec fn encoded_unlimited(message: MessageView) -> Seq<u8>;

/// The bytes that a message is sent as; none where the codec cannot write it.
pub open spec fn sent_bytes(message: Option<MessageView>) -> Seq<u8> {
    match message {
        Some(message) => match encoded(message) {
            Some(bytes) => bytes,
            None => Seq::empty(),
        },
        None => Seq::empty(),
    }
}

/// `coap_lite::error::MessageError`: why the codec cannot read or write a message. Only that it failed
/// is of interest here.
#[verifier::external_type_specification]
#[verifier::external_body]
pub struct ExMessageError(coap_lite::error::MessageError);

/// The datagram is a header and a token, with nothing behind them.
pub open spec fn is_bare(bytes: Seq<u8>) -> bool {
    &&& bytes.len() >= 4
    &&& bytes[0] as int % 16 <= 8
    &&& bytes.len() == 4 + bytes[0] as int % 16
}

/// What every datagram that decodes to `message` has in common with it.
pub open spec fn read_from(message: MessageView, bytes: Seq<u8>) -> bool {
    &&& bytes.len() >= 4
    &&& starts_with_header(bytes, message)
    &&& message.well_formed()
    &&& message.overhead() <= bytes.len()
    &&& is_bare(bytes) ==> message.options.len() == 0 && message.payload.len() == 0
}

/// Reads a datagram with `coap_lite::Packet::from_bytes`, which depends on the bytes alone.
///
/// Of a message that it returns, the header and the token are those at the start of the bytes, the
/// options come in order of their numbers, and the part before the payload is no longer than the
/// datagram. A datagram of a header and a token is always a message, one without options and
/// payload. The two-byte form of option deltas and lengths is read as on a little-endian target.
#[verifier::external_body]
pub(crate) fn decode(bytes: &[u8]) -> (r: Result<CoapMessage, coap_lite::error::MessageError>)
    ensures
        match r {
            Ok(message) => decoded(bytes@) == Some(message@) && read_from(message@, bytes@),
            Err(_) => decoded(bytes@) is None && !is_bare(bytes@),
        },
{
    let p = coap_lite::Packet::from_bytes(bytes)?;
    Ok(CoapMessage {
        version: p.header.get_version(),
        kind: [Confirmable, NonConfirmable, Acknowledgement, Reset][p.header.get_type() as usize],
        code: p.header.code.into(),
        message_id: p.header.message_id,
        token: p.get_token().to_vec(),
        options: p.options().flat_map(|(n, vs)| vs.iter().map(move |v| (*n, v.clone()))).collect(),
        payload: p.payload,
    })
}

/// Writes a message with `coap_lite::Packet::to_bytes`, which depends on the message alone.
///
/// It fails exactly when the message is over the codec's size limit. What it writes is at most as
/// long as that limit. In what it writes for a message without two-byte forms,
/// `coap_lite::Packet::from_bytes` reads what was written, save that the payload of an empty message
/// is not written.
#[verifier::external_body]
pub(crate) fn encode(message: &CoapMessage) -> (r: Result<Vec<u8>, coap_lite::error::MessageError>)
    requires
        message@.well_formed(),
    ensures
        match r {
            Ok(bytes) => encoded(message@) == Some(bytes@) && message@.wire_size()
                <= MAX_MESSAGE_SIZE && bytes@.len() <= MAX_MESSAGE_SIZE && (message@.portable()
                ==> decoded(bytes@) == Some(message@.as_sent())),
            Err(_) => encoded(message@) is None && message@.wire_size() > MAX_MESSAGE_SIZE,
        },
{
    let mut p = coap_lite::Packet::new();
    p.header.set_version(message.version);
    p.header.set_type(match message.kind {
        MessageKind::Confirmable => coap_lite::MessageType::Confirmable,
        MessageKind::NonConfirmable => coap_lite::MessageType::NonConfirmable,
        MessageKind::Acknowledgement => coap_lite::MessageType::Acknowledgement,
        MessageKind::Reset => coap_lite::MessageType::Reset,
    });
    p.header.code = message.code.into();
    p.header.message_id = message.message_id;
    p.set_token(message.token.clone());
    message.options.iter().for_each(|o| p.add_option(o.0.into(), o.1.clone()));
    p.payload = message.payload.clone();
    p.to_bytes()
}

/// Writes a message of any payload size with `coap_lite::Packet::to_bytes_unlimited`, which depends on
/// the message alone.
///
/// It does not fail. In what it writes for a message without two-byte forms,
/// `coap_lite::Packet::from_bytes` reads what was written, save that the payload of an empty message
/// is not written.
#[verifier::external_body]
pub(crate) fn encode_unlimited(message: &CoapMessage) -> (r: Result<
    Vec<u8>,
    coap_lite::error::MessageError,
>)
    requires
        message@.well_formed(),
        message@.overhead() <= MAX_MESSAGE_SIZE,
    ensures
        match r {
            Ok(bytes) => bytes@ == encoded_unlimited(message@) && (message@.portable()
                ==> decoded(bytes@) == Some(message@.as_sent())),
            Err(_) => false,
        },
{
    let mut p = coap_lite::Packet::new();
    p.header.set_version(message.version);
    p.header.set_type(match message.kind {
        MessageKind::Confirmable => coap_lite::MessageType::Confirmable,
        MessageKind::NonConfirmable => coap_lite::MessageType::NonConfirmable,
        MessageKind::Acknowledgement => coap_lite::MessageType::Acknowledgement,
        MessageKind::Reset => coap_lite::MessageType::Reset,
    });
    p.header.code = message.code.into();
    p.header.message_id = message.message_id;
    p.set_token(message.token.clone());
    message.options.iter().for_each(|o| p.add_option(o.0.into(), o.1.clone()));
    p.payload = message.payload.clone();
    p.to_bytes_unlimited()
}

/// The path text that `coap_lite::CoapRequest::get_path` makes of a request's `Uri-Path` values:
/// those that are UTF-8, joined by a slash.
#[verifier::external_body]
pub(crate) fn join_path(segments: &Vec<Vec<u8>>) -> (r: String)
    ensures
        r@ == path_text(byte_strings(segments@)),
{
    let mut request: coap_lite::CoapRequest<String> = coap_lite::CoapRequest::new();
    for segment in segments {
        request.message.add_option(coap_lite::CoapOption::UriPath, segment.clone());
    }
    request.get_path()
}

/// Options never take less than no room.
pub proof fn lemma_options_size_nonnegative(options: Seq<(u16, Seq<u8>)>, last: int)
    ensures
        options_size(options, last) >= 0,
    decreases options.len(),
{
    if options.len() > 0 {
        lemma_options_size_nonnegative(options.drop_first(), options[0].0 as int);
    }
}

/// One more value leaves the options in order.
pub proof fn lemma_with_option_ordered(
    options: Seq<(u16, Seq<u8>)>,
    number: u16,
    value: Seq<u8>,
)
    requires
        ordered(options),
    ensures
        ordered(with_option(options, number, value)),
        options.len() > 0 ==> with_option(options, number, value).last().0 == (if number
            < options.last().0 {
            options.last().0
        } else {
            number
        }),
    decreases options.len(),
{
    if options.len() > 0 && options.last().0 > number {
        lemma_with_option_ordered(options.drop_last(), number, value);
    }
}

/// One more value of a short option keeps to the short forms.
pub proof fn lemma_with_option_short(options: Seq<(u16, Seq<u8>)>, number: u16, value: Seq<u8>)
    requires
        ordered(options),
        short_forms(options),
        number < 269,
        value.len() < 269,
    ensures
        short_forms(with_option(options, number, value)),
    decreases options.len(),
{
    if options.len() > 0 && options.last().0 > number {
        let head = options.drop_last();
        let added = with_option(head, number, value);
        assert forall|i: int| 0 <= i < head.len() implies #[trigger] short_form(head, i) by {
            assert(short_form(options, i));
        }
        lemma_with_option_short(head, number, value);
        lemma_with_option_ordered(head, number, value);
        lemma_with_option_grows(head, number, value);
        let whole = added.push(options.last());
        assert forall|i: int| 0 <= i < whole.len() implies #[trigger] short_form(whole, i) by {
            if i < added.len() {
                assert(short_form(added, i));
            } else {
                assert(short_form(options, options.len() - 1));
            }
        }
    } else {
        let whole = options.push((number, value));
        assert forall|i: int| 0 <= i < whole.len() implies #[trigger] short_form(whole, i) by {
            if i < options.len() {
                assert(short_form(options, i));
            }
        }
    }
}

/// One more value behind the first option leaves that option in front.
proof fn lemma_with_option_behind_first(
    options: Seq<(u16, Seq<u8>)>,
    number: u16,
    value: Seq<u8>,
)
    requires
        options.len() > 0,
        options[0].0 <= number,
    ensures
        with_option(options, number, value) == seq![options[0]] + with_option(
            options.drop_first(),
            number,
            value,
        ),
    decreases options.len(),
{
    let rest = options.drop_first();
    if options.last().0 > number {
        lemma_with_option_behind_first(options.drop_last(), number, value);
        assert(options.drop_last().drop_first() =~= rest.drop_last());
        assert(rest.last() == options.last());
    } else if options.len() > 1 {
        assert(rest.last() == options.last());
    }
    assert(with_option(options, number, value) =~= seq![options[0]] + with_option(
        rest,
        number,
        value,
    ));
}

/// A value of an option with a lower number than all others stands in front.
proof fn lemma_with_option_in_front(options: Seq<(u16, Seq<u8>)>, number: u16, value: Seq<u8>)
    requires
        ordered(options),
        options.len() > 0 ==> options[0].0 > number,
    ensures
        with_option(options, number, value) == seq![(number, value)] + options,
    decreases options.len(),
{
    if options.len() > 0 {
        lemma_with_option_in_front(options.drop_last(), number, value);
    }
    assert(with_option(options, number, value) =~= seq![(number, value)] + options);
}

/// One more value of an option with a low number and a short value takes at most two bytes more than the
/// value itself.
pub proof fn lemma_with_option_size(
    options: Seq<(u16, Seq<u8>)>,
    number: u16,
    value: Seq<u8>,
    last: int,
)
    requires
        ordered(options),
        options.len() > 0 ==> last <= options[0].0,
        last <= number < last + 269,
        value.len() <= 12,
    ensures
        options_size(with_option(options, number, value), last) <= options_size(options, last) + 2
            + value.len(),
    decreases options.len(),
{
    let whole = with_option(options, number, value);
    if options.len() > 0 && options[0].0 <= number {
        lemma_with_option_behind_first(options, number, value);
        lemma_with_option_size(options.drop_first(), number, value, options[0].0 as int);
        assert(whole.drop_first() =~= with_option(options.drop_first(), number, value));
    } else {
        lemma_with_option_in_front(options, number, value);
        assert(whole.drop_first() =~= options);
        assert(options_size(options, number as int) <= options_size(options, last));
    }
}

/// One more value makes the options one longer.
proof fn lemma_with_option_grows(options: Seq<(u16, Seq<u8>)>, number: u16, value: Seq<u8>)
    ensures
        with_option(options, number, value).len() == options.len() + 1,
    decreases options.len(),
{
    if options.len() > 0 && options.last().0 > number {
        lemma_with_option_grows(options.drop_last(), number, value);
    }
}

/// The length of the extension that an option delta or an option length of `n` needs.
fn extension_length(n: usize) -> (r: usize)
    ensures
        r == extension_size(n as int),
{
    if n <= 12 {
        0
    } else if n < 269 {
        1
    } else {
        2
    }
}

/// A copy of a byte string.
pub(crate) fn copy_bytes(bytes: &Vec<u8>) -> (r: Vec<u8>)
    ensures
        r@ == bytes@,
{
    let r = bytes.clone();
    assert(r@ =~= bytes@);
    r
}

impl CoapMessage {
    /// The method that the message asks for.
    pub fn get_method(&self) -> (r: Method)
        ensures
            r == method_of(self.code),
    {
        match self.code {
            1 => Method::Get,
            2 => Method::Post,
            3 => Method::Put,
            4 => Method::Delete,
            5 => Method::Fetch,
            6 => Method::Patch,
            7 => Method::IPatch,
            _ => Method::Unknown,
        }
    }

    /// Sets the response code.
    pub fn set_status(&mut self, status: u8)
        ensures
            final(self)@ == (MessageView { code: status, ..old(self)@ }),
    {
        self.code = status;
    }

    /// Removes all options.
    pub fn clear_all_options(&mut self)
        ensures
            final(self)@ == (MessageView { options: Seq::empty(), ..old(self)@ }),
    {
        self.options = Vec::new();
        assert(self@.options =~= Seq::empty());
    }

    /// Adds a value of an option behind the values that it has.
    pub fn add_option(&mut self, number: u16, value: Vec<u8>)
        ensures
            final(self)@ == (MessageView {
                options: with_option(old(self)@.options, number, value@),
                ..old(self)@
            }),
    {
        let mut at: usize = self.options.len();
        let ghost options = self@.options;
        let ghost entry = (number, value@);
        assert(with_option(options, number, value@) =~= with_option(
            options.take(at as int),
            number,
            value@,
        ) + options.skip(at as int)) by {
            assert(options.take(at as int) =~= options);
        }
        while at > 0 && self.options[at - 1].0 > number
            invariant
                at <= self.options@.len(),
                options == options_view(self.options@),
                entry == (number, value@),
                with_option(options, number, value@) == with_option(
                    options.take(at as int),
                    number,
                    value@,
                ) + options.skip(at as int),
            decreases at,
        {
            proof {
                let head = options.take(at as int);
                assert(head.drop_last() =~= options.take(at - 1));
                assert(with_option(head, number, value@) + options.skip(at as int)
                    =~= with_option(options.take(at - 1), number, value@) + options.skip(at - 1));
            }
            at = at - 1;
        }
        self.options.insert(at, (number, value));
        assert(options_view(self.options@) =~= options.take(at as int).push(entry) + options.skip(
            at as int,
        ));
    }

    /// The values of an option, in order.
    pub fn get_option(&self, number: u16) -> (r: Vec<Vec<u8>>)
        ensures
            byte_strings(r@) == values_of(self@.options, number),
    {
        let mut values: Vec<Vec<u8>> = Vec::new();
        let ghost options = self@.options;
        let mut i: usize = 0;
        assert(byte_strings(values@) =~= values_of(options.take(0), number));
        while i < self.options.len()
            invariant
                i <= self.options@.len(),
                options == options_view(self.options@),
                byte_strings(values@) == values_of(options.take(i as int), number),
            decreases self.options@.len() - i,
        {
            let ghost before = values@;
            proof {
                assert(options.take(i + 1).drop_last() =~= options.take(i as int));
            }
            if self.options[i].0 == number {
                let value = copy_bytes(&self.options[i].1);
                values.push(value);
                assert(byte_strings(values@) =~= byte_strings(before).push(value@));
            }
            i = i + 1;
        }
        assert(options.take(i as int) =~= options);
        values
    }

    /// The first value of an option.
    pub fn get_first_option(&self, number: u16) -> (r: Option<Vec<u8>>)
        ensures
            match r {
                Some(value) => first_value(self@.options, number) == Some(value@),
                None => first_value(self@.options, number) is None,
            },
    {
        let mut values = self.get_option(number);
        if values.len() == 0 {
            None
        } else {
            let ghost all = byte_strings(values@);
            let value = values.swap_remove(0);
            assert(all[0] == value@);
            Some(value)
        }
    }

    /// The size of the message without its payload.
    pub fn overhead(&self) -> (r: usize)
        requires
            self@.overhead() <= usize::MAX,
        ensures
            r == self@.overhead(),
    {
        let ghost options = self@.options;
        let mut size: usize = 4;
        let mut last: u16 = 0;
        let mut i: usize = 0;
        proof {
            lemma_options_size_nonnegative(options, 0);
            assert(options.skip(0) =~= options);
        }
        size = size + self.token.len();
        while i < self.options.len()
            invariant
                i <= self.options@.len(),
                options == options_view(self.options@),
                size + options_size(options.skip(i as int), last as int) == self@.overhead(),
                self@.overhead() <= usize::MAX,
            decreases self.options@.len() - i,
        {
            let number: u16 = self.options[i].0;
            let length: usize = self.options[i].1.len();
            proof {
                assert(options.skip(i as int)[0] == options[i as int]);
                assert(options.skip(i as int).drop_first() =~= options.skip(i + 1));
                lemma_options_size_nonnegative(options.skip(i + 1), number as int);
            }
            size = size + 1;
            if number > last {
                size = size + extension_length((number - last) as usize);
            }
            size = size + extension_length(length);
            size = size + length;
            last = number;
            i = i + 1;
        }
        assert(options.skip(i as int) =~= Seq::empty());
        size
    }

    /// The path that the message addresses.
    pub fn get_path(&self) -> (r: String)
        ensures
            r@ == path_text(values_of(self@.options, URI_PATH)),
    {
        join_path(&self.get_option(URI_PATH))
    }

    /// The blank answer to the message, where one is due.
    pub fn new_response(&self) -> (r: Option<CoapMessage>)
        ensures
            match r {
                Some(response) => response_to(self@) == Some(response@),
                None => response_to(self@) is None,
            },
    {
        let kind = match self.kind {
            MessageKind::Confirmable => MessageKind::Acknowledgement,
            MessageKind::NonConfirmable => MessageKind::NonConfirmable,
            _ => {
                return None;
            },
        };
        let response = CoapMessage {
            version: 1,
            kind,
            code: CONTENT,
            message_id: self.message_id,
            token: copy_bytes(&self.token),
            options: Vec::new(),
            payload: Vec::new(),
        };
        assert(response@.options =~= Seq::empty());
        Some(response)
    }
}

/// A code below 0.08 asks for the method that RFC 7252 §12.1.1 and RFC 8132 give it; every other code asks
/// for none that is known.
pub proof fn law_codes_ask_for_their_methods(code: u8)
    ensures
        method_of(code) == Method::Get <==> code == 1,
        method_of(code) == Method::Post <==> code == 2,
        method_of(code) == Method::Put <==> code == 3,
        method_of(code) == Method::Delete <==> code == 4,
        method_of(code) == Method::Fetch <==> code == 5,
        method_of(code) == Method::Patch <==> code == 6,
        method_of(code) == Method::IPatch <==> code == 7,
        method_of(code) == Method::Unknown <==> code == 0 || code > 7,
{
}

/// The value of a message is that of its fields.
pub proof fn law_message_shows_its_fields(message: CoapMessage, i: int)
    requires
        0 <= i < message.options@.len(),
    ensures
        message@.version == message.version,
        message@.kind == message.kind,
        message@.code == message.code,
        message@.message_id == message.message_id,
        message@.token == message.token@,
        message@.payload == message.payload@,
        message@.options.len() == message.options@.len(),
        message@.options[i] == (message.options@[i].0, message.options@[i].1@),
{
}

/// A list of byte strings has the byte strings as its values.
pub proof fn law_byte_strings_show_their_bytes(values: Seq<Vec<u8>>, i: int)
    requires
        0 <= i < values.len(),
    ensures
        byte_strings(values).len() == values.len(),
        byte_strings(values)[i] == values[i]@,
{
}

/// The values of an option are those of the entries with its number, all of them and in their order.
pub proof fn law_values_are_those_with_the_number(options: Seq<(u16, Seq<u8>)>, number: u16)
    ensures
        values_of(options, number) == options.filter(
            |option: (u16, Seq<u8>)| option.0 == number,
        ).map_values(|option: (u16, Seq<u8>)| option.1),
        first_value(options, number) == (if values_of(options, number).len() > 0 {
            Some(values_of(options, number)[0])
        } else {
            None
        }),
    decreases options.len(),
{
    reveal(Seq::filter);
    let chosen = |option: (u16, Seq<u8>)| option.0 == number;
    let value = |option: (u16, Seq<u8>)| option.1;
    if options.len() == 0 {
        assert(options.filter(chosen).map_values(value) =~= Seq::empty());
    } else {
        let rest = options.drop_last();
        law_values_are_those_with_the_number(rest, number);
        if chosen(options.last()) {
            assert(rest.filter(chosen).push(options.last()).map_values(value) =~= rest.filter(
                chosen,
            ).map_values(value).push(options.last().1));
        }
    }
}

/// One more value of an option comes behind the values that the option has. No other option changes, the
/// options stay in order, and there is one more.
pub proof fn law_added_option_comes_last(
    options: Seq<(u16, Seq<u8>)>,
    number: u16,
    value: Seq<u8>,
    other: u16,
)
    requires
        ordered(options),
        other != number,
    ensures
        values_of(with_option(options, number, value), number) == values_of(options, number).push(
            value,
        ),
        values_of(with_option(options, number, value), other) == values_of(options, other),
        ordered(with_option(options, number, value)),
        with_option(options, number, value).len() == options.len() + 1,
{
    lemma_with_option_ordered(options, number, value);
    lemma_with_option_grows(options, number, value);
    lemma_values_of_added(options, number, value);
    lemma_values_of_others(options, number, value, other);
}

/// One more value of an option stands behind those that were there.
pub proof fn lemma_values_of_added(options: Seq<(u16, Seq<u8>)>, number: u16, value: Seq<u8>)
    ensures
        values_of(with_option(options, number, value), number) == values_of(options, number).push(
            value,
        ),
    decreases options.len(),
{
    let added = with_option(options, number, value);
    assert(added.drop_last() =~= (if options.len() > 0 && options.last().0 > number {
        with_option(options.drop_last(), number, value)
    } else {
        options
    }));
    if options.len() > 0 && options.last().0 > number {
        lemma_values_of_added(options.drop_last(), number, value);
    }
}

/// One more value of an option leaves the values of another as they are.
pub proof fn lemma_values_of_others(
    options: Seq<(u16, Seq<u8>)>,
    number: u16,
    value: Seq<u8>,
    other: u16,
)
    requires
        other != number,
    ensures
        values_of(with_option(options, number, value), other) == values_of(options, other),
    decreases options.len(),
{
    let added = with_option(options, number, value);
    assert(added.drop_last() =~= (if options.len() > 0 && options.last().0 > number {
        with_option(options.drop_last(), number, value)
    } else {
        options
    }));
    if options.len() > 0 && options.last().0 > number {
        lemma_values_of_others(options.drop_last(), number, value, other);
    }
}

/// A message of version 1 under the request's id and token, without options and payload, answers a
/// request: an acknowledgement a confirmable one, a non-confirmable message a non-confirmable one. An
/// acknowledgement or a reset is not answered.
pub proof fn law_blank_answers(message: MessageView)
    ensures
        response_to(message) is Some <==> message.kind == MessageKind::Confirmable || message.kind
            == MessageKind::NonConfirmable,
        response_to(message) matches Some(blank) ==> {
            &&& blank.version == 1
            &&& message.kind == MessageKind::Confirmable ==> blank.kind
                == MessageKind::Acknowledgement
            &&& message.kind == MessageKind::NonConfirmable ==> blank.kind
                == MessageKind::NonConfirmable
            &&& blank.code == 0x45
            &&& blank.message_id == message.message_id
            &&& blank.token == message.token
            &&& blank.options.len() == 0
            &&& blank.payload.len() == 0
        },
{
}

/// The path of one segment is the segment's text; each further segment comes behind a slash. A segment
/// that is no text is left out.
pub proof fn law_paths_are_joined_by_slashes(segments: Seq<Seq<u8>>, segment: Seq<u8>)
    ensures
        path_text(Seq::<Seq<u8>>::empty()) == Seq::<char>::empty(),
        valid_utf8(segment) ==> path_text(seq![segment]) == decode_utf8(segment),
        !valid_utf8(segment) ==> path_text(segments.push(segment)) == path_text(segments),
        valid_utf8(segment) && (exists|i: int|
            0 <= i < segments.len() && valid_utf8(#[trigger] segments[i])) ==> path_text(
            segments.push(segment),
        ) == path_text(segments) + seq!['/'] + decode_utf8(segment),
{
    let one = seq![segment];
    assert(one.drop_last() =~= Seq::empty());
    assert(segments.push(segment).drop_last() =~= segments);
    assert(path_text(segments) + seq!['/'] =~= path_text(segments).push('/'));
}

/// A message without options takes four bytes and its token beside the payload. An option in front takes a
/// byte, its value, and one or two bytes more for each of its delta and its length that is above 12 or
/// 268.
pub proof fn law_overhead_is_counted_by_option(
    message: MessageView,
    number: u16,
    value: Seq<u8>,
    rest: Seq<(u16, Seq<u8>)>,
    last: int,
)
    ensures
        message.options.len() == 0 ==> message.overhead() == 4 + message.token.len(),
        message.overhead() == 4 + message.token.len() + options_size(message.options, 0),
        options_size(seq![(number, value)] + rest, last) == 1 + value.len() + (if number - last
            > 268 {
            2int
        } else if number - last > 12 {
            1
        } else {
            0
        }) + (if value.len() > 268 {
            2int
        } else if value.len() > 12 {
            1
        } else {
            0
        }) + options_size(rest, number as int),
{
    assert((seq![(number, value)] + rest).drop_first() =~= rest);
}

/// The bytes that a message is sent as are those that the codec writes for it; where it writes none, or
/// there is no message, there are none.
pub proof fn law_messages_are_sent_as_written(message: MessageView, bytes: Seq<u8>)
    ensures
        encoded(message) == Some(bytes) ==> sent_bytes(Some(message)) == bytes,
        encoded(message) is None ==> sent_bytes(Some(message)).len() == 0,
        sent_bytes(None).len() == 0,
{
}

/// What a receiver reads of a message is all of it, save that an empty message (code 0.00) has no payload.
pub proof fn law_messages_are_read_whole(message: MessageView)
    ensures
        message.code != 0 ==> message.as_sent() == message,
        message.code == 0 ==> message.as_sent() == (MessageView {
            payload: Seq::empty(),
            ..message
        }),
{
}

/// The codes are those of their class and detail (RFC 7252 §12.1, RFC 7959 §2.9), a class being 32 apart from
/// the next; the option numbers are those of RFC 7252 §12.2 and RFC 7959 §6.
pub proof fn law_codes_and_numbers()
    ensures
        CREATED == 2 * 32 + 1,
        CONTENT == 2 * 32 + 5,
        CONTINUE == 2 * 32 + 31,
        REQUEST_ENTITY_INCOMPLETE == 4 * 32 + 8,
        REQUEST_ENTITY_TOO_LARGE == 4 * 32 + 13,
        INTERNAL_SERVER_ERROR == 5 * 32,
        EMPTY == 0,
        LOCATION_PATH == 8,
        URI_PATH == 11,
        BLOCK2 == 23,
        BLOCK1 == 27,
{
}

} // verus!
