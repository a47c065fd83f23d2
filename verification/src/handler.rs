//! Routing of LwM2M requests and the answers to them.
use crate::coap::{
    decode, decoded, encode, encoded, is_bare, method_of, no_text, options_size, path_text, read_from,
    response_to, sent_bytes, values_of, CoapMessage, MessageKind, MessageView, Method, CREATED,
    INTERNAL_SERVER_ERROR, LOCATION_PATH, MAX_MESSAGE_SIZE, URI_PATH,
};
use crate::error::ServerError;
use crate::reliability::retryable;
use crate::transport::{DatagramView, TransportMessage};
use rand::distr::Alphanumeric;
use rand::Rng;
use vstd::prelude::*;
use vstd::slice::slice_to_vec;
use vstd::utf8::{
    decode_utf8, decode_utf8_encode_utf8, encode_utf8, encode_utf8_decode_utf8,
    encode_utf8_valid_utf8, is_ascii_chars, is_ascii_chars_encode_utf8, valid_utf8,
};

verus! {

/// `String::push` puts a character at the end.
pub assume_specification[ String::push ](s: &mut String, c: char)
    ensures
        final(s)@ == old(s)@.push(c),
;

/// An ASCII letter or digit.
pub open spec fn is_alphanumeric(c: int) -> bool {
    ||| '0' as int <= c <= '9' as int
    ||| 'A' as int <= c <= 'Z' as int
    ||| 'a' as int <= c <= 'z' as int
}

/// A registration id: ten ASCII letters and digits.
pub open spec fn is_registration_id(id: Seq<char>) -> bool {
    &&& id.len() == 10
    &&& forall|i: int| 0 <= i < id.len() ==> is_alphanumeric(#[trigger] id[i] as int)
}

/// One sample of `rand::distr::Alphanumeric`: an ASCII letter or digit. Which one is a matter of
/// chance. The generator panics where the system has no entropy to give.
#[verifier::external_body]
fn sample_alphanumeric() -> (r: u8)
    ensures
        is_alphanumeric(r as int),
{
    rand::rng().sample(Alphanumeric)
}

/// A request, the answer that goes with it, and where it came from.
#[derive(Debug)]
pub struct CoapRequest {
    pub message: CoapMessage,
    pub response: Option<CoapMessage>,
    pub source: String,
}

impl CoapRequest {
    /// A request with its blank answer, where one is due.
    pub fn from_packet(message: CoapMessage, source: String) -> (r: CoapRequest)
        ensures
            r.message == message,
            r.source == source,
            match r.response {
                Some(response) => response_to(message@) == Some(response@),
                None => response_to(message@) is None,
            },
    {
        let response = message.new_response();
        CoapRequest { message, response, source }
    }
}

/// A parsed LwM2M packet: the request and the datagram that it came in.
#[derive(Debug)]
pub struct Lwm2mPacket<'a> {
    pub message: CoapRequest,
    pub transport_message: &'a TransportMessage,
}

/// The message asks to register: a `POST` to `/rd`.
pub open spec fn is_registration(message: MessageView) -> bool {
    &&& method_of(message.code) == Method::Post
    &&& path_text(values_of(message.options, URI_PATH)) == "rd"@
}

/// Whether the message asks to register.
pub fn asks_to_register(message: &CoapMessage) -> (r: bool)
    ensures
        r == is_registration(message@),
        r == (message@.code == 2 && path_text(values_of(message@.options, URI_PATH)) == "rd"@),
{
    let path = message.get_path();
    message.get_method() == Method::Post && path == "rd".to_owned()
}

/// The answer to a registration: `2.01 Created` with the location `/rd/{id}`.
pub open spec fn registered(blank: MessageView, id: Seq<char>) -> MessageView {
    MessageView {
        code: CREATED,
        options: seq![(LOCATION_PATH, encode_utf8("rd"@)), (LOCATION_PATH, encode_utf8(id))],
        ..blank
    }
}

/// The answer to a request that is not served: `5.00 Internal Server Error` without options.
pub open spec fn refused(blank: MessageView) -> MessageView {
    MessageView { code: INTERNAL_SERVER_ERROR, options: Seq::empty(), ..blank }
}

/// The error that a datagram is refused with. It is a matter of the bytes alone.
pub open spec fn serving_error(bytes: Seq<u8>) -> Option<ServerError> {
    match decoded(bytes) {
        None => Some(ServerError::CoapParsing),
        Some(message) => if response_to(message) is Some {
            None
        } else {
            Some(ServerError::WrongPathOrMethod)
        },
    }
}

/// The message that answers a request, given the id of the registration that it may ask for.
pub open spec fn answer_to(message: MessageView, id: Seq<char>) -> MessageView {
    if is_registration(message) {
        registered(response_to(message).unwrap(), id)
    } else {
        refused(response_to(message).unwrap())
    }
}

/// The datagram holds the message, as the codec writes it and reads it.
pub open spec fn carries(datagram: DatagramView, peer: Seq<char>, message: MessageView) -> bool {
    &&& datagram.peer == peer
    &&& encoded(message) == Some(datagram.bytes)
    &&& decoded(datagram.bytes) == Some(message)
}

/// A tower service for processing LwM2M messages: it parses them, routes them, and answers.
#[derive(Debug, Clone, Copy, PartialEq, Eq, Structural)]
pub struct MessageHandler;

impl Default for MessageHandler {
    fn default() -> (r: MessageHandler)
        ensures
            r == MessageHandler,
    {
        MessageHandler::new()
    }
}

impl MessageHandler {
    /// Creates a message handler.
    pub fn new() -> (r: MessageHandler)
        ensures
            r == MessageHandler,
    {
        MessageHandler
    }

    /// Generates a registration id.
    pub fn generate_registration_id() -> (r: String)
        ensures
            is_registration_id(r@),
    {
        let mut samples: Vec<u8> = Vec::new();
        while samples.len() < 10
            invariant
                samples@.len() <= 10,
                forall|k: int|
                    0 <= k < samples@.len() ==> is_alphanumeric(#[trigger] samples@[k] as int),
            decreases 10 - samples@.len(),
        {
            samples.push(sample_alphanumeric());
        }
        Self::id_of(&samples)
    }

    /// The registration id that ten samples spell.
    pub fn id_of(samples: &Vec<u8>) -> (r: String)
        requires
            samples@.len() == 10,
            forall|i: int| 0 <= i < 10 ==> is_alphanumeric(#[trigger] samples@[i] as int),
        ensures
            r@ == Seq::new(10, |i: int| samples@[i] as char),
            is_registration_id(r@),
    {
        let mut id = String::new();
        let mut i: usize = 0;
        while i < 10
            invariant
                i <= 10,
                samples@.len() == 10,
                id@ == Seq::new(i as nat, |k: int| samples@[k] as char),
            decreases 10 - i,
        {
            id.push(samples[i] as char);
            i = i + 1;
            assert(id@ =~= Seq::new(i as nat, |k: int| samples@[k] as char));
        }
        id
    }

    /// Makes a blank answer the answer to a registration under the given id.
    pub fn register(response: CoapMessage, reg_id: &str) -> (r: CoapMessage)
        ensures
            r@ == registered(response@, reg_id@),
            r@ == (MessageView {
                code: CREATED,
                options: seq![
                    (LOCATION_PATH, encode_utf8("rd"@)),
                    (LOCATION_PATH, encode_utf8(reg_id@)),
                ],
                ..response@
            }),
    {
        let mut response = response;
        response.set_status(CREATED);
        response.clear_all_options();
        response.add_option(LOCATION_PATH, slice_to_vec("rd".as_bytes()));
        response.add_option(LOCATION_PATH, slice_to_vec(reg_id.as_bytes()));
        assert(response@.options =~= registered(response@, reg_id@).options);
        response
    }

    /// Makes a blank answer the answer to a request that is not served.
    pub fn refuse(response: CoapMessage) -> (r: CoapMessage)
        ensures
            r@ == refused(response@),
            r@ == (MessageView {
                code: INTERNAL_SERVER_ERROR,
                options: Seq::empty(),
                ..response@
            }),
    {
        let mut response = response;
        response.set_status(INTERNAL_SERVER_ERROR);
        response.clear_all_options();
        response
    }

    /// Handles registration requests.
    pub fn handle_registration(packet: Lwm2mPacket<'_>) -> (r: Option<CoapMessage>)
        ensures
            match packet.message.response {
                Some(blank) => r matches Some(response) && exists|id: Seq<char>|
                    #![trigger is_registration_id(id)]
                    is_registration_id(id) && response@ == registered(blank@, id),
                None => r is None,
            },
    {
        if let Some(response) = packet.message.response {
            let reg_id = Self::generate_registration_id();
            return Some(Self::register(response, reg_id.as_str()));
        }
        None
    }

    /// Sends an answer to a peer; no bytes where the codec cannot write it.
    pub fn reply_with(peer_addr: String, response: CoapMessage) -> (r: TransportMessage)
        requires
            response@.well_formed(),
        ensures
            r@ == (DatagramView { peer: peer_addr@, bytes: sent_bytes(Some(response@)) }),
            response@.wire_size() <= MAX_MESSAGE_SIZE ==> encoded(response@) is Some && (
            response@.portable() ==> decoded(r@.bytes) == Some(response@.as_sent())),
    {
        let buffer = match encode(&response) {
            Ok(bytes) => bytes,
            Err(_) => Vec::new(),
        };
        TransportMessage::new(peer_addr, buffer)
    }

    /// Processes a transport message and returns a response.
    ///
    /// A `POST` to `/rd` is answered `2.01 Created` with a fresh id; any other request is answered
    /// `5.00 Internal Server Error`. What cannot be parsed or answered is an error.
    pub fn process_message(msg: TransportMessage) -> (r: Result<TransportMessage, ServerError>)
        ensures
            match serving_error(msg@.bytes) {
                Some(error) => r matches Err(e) && e == error,
                None => r matches Ok(answer) && exists|id: Seq<char>|
                    #![trigger is_registration_id(id)]
                    is_registration_id(id) && carries(
                        answer@,
                        msg@.peer,
                        answer_to(decoded(msg@.bytes).unwrap(), id),
                    ),
            },
            decoded(msg@.bytes) matches Some(message) ==> read_from(message, msg@.bytes),
            is_bare(msg@.bytes) ==> decoded(msg@.bytes) is Some,
    {
        let message = match decode(msg.message_buf.as_slice()) {
            Ok(message) => message,
            Err(_) => {
                return Err(ServerError::CoapParsing);
            },
        };
        let ghost asked = message@;
        let packet = Lwm2mPacket {
            message: CoapRequest::from_packet(message, msg.peer_addr.clone()),
            transport_message: &msg,
        };
        let registration = asks_to_register(&packet.message.message);
        let ghost mut id: Seq<char> = Seq::new(10, |i: int| '0');
        let response = if registration {
            match Self::handle_registration(packet) {
                Some(response) => {
                    proof {
                        id = choose|id: Seq<char>|
                            #![trigger is_registration_id(id)]
                            is_registration_id(id) && response@ == registered(
                                response_to(asked).unwrap(),
                                id,
                            );
                    }
                    response
                },
                None => {
                    return Err(ServerError::WrongPathOrMethod);
                },
            }
        } else {
            match packet.message.response {
                Some(response) => Self::refuse(response),
                None => {
                    return Err(ServerError::WrongPathOrMethod);
                },
            }
        };
        proof {
            assert(is_registration_id(id));
            lemma_answers_fit(asked, id);
        }
        Ok(Self::reply_with(msg.peer_addr, response))
    }
}

/// The answers are well-formed, fit the codec's limit, and are read as they are.
proof fn lemma_answers_fit(message: MessageView, id: Seq<char>)
    requires
        message.well_formed(),
        response_to(message) is Some,
        is_registration_id(id),
    ensures
        answer_to(message, id).well_formed(),
        answer_to(message, id).wire_size() <= MAX_MESSAGE_SIZE,
        answer_to(message, id).as_sent() == answer_to(message, id),
        answer_to(message, id).portable(),
{
    reveal_strlit("rd");
    assert(is_ascii_chars("rd"@));
    is_ascii_chars_encode_utf8("rd"@);
    assert(is_ascii_chars(id));
    is_ascii_chars_encode_utf8(id);
    let options = registered(response_to(message).unwrap(), id).options;
    assert(options.drop_first() =~= seq![options[1]]);
    assert(options.drop_first().drop_first() =~= Seq::empty());
    reveal_with_fuel(options_size, 3);
}

/// Every message that is a confirmable or a non-confirmable one is answered, and no other is.
pub proof fn law_answerable_messages_are_answered(bytes: Seq<u8>)
    ensures
        serving_error(bytes) is None <==> (decoded(bytes) matches Some(message) && (message.kind
            == MessageKind::Confirmable || message.kind == MessageKind::NonConfirmable)),
{
}

/// A parsing error is given for bytes that are no message, and for no others.
pub proof fn law_only_malformed_bytes_fail_to_parse(bytes: Seq<u8>)
    ensures
        serving_error(bytes) == Some(ServerError::CoapParsing) <==> decoded(bytes) is None,
{
}

/// No error of the handler is worth a retry: the same bytes fail the same way again.
pub proof fn law_handler_errors_are_permanent(bytes: Seq<u8>)
    ensures
        serving_error(bytes) matches Some(error) ==> !retryable(error),
{
}

/// An answer has the id and the token of its request and no payload. It acknowledges a confirmable
/// request, and is non-confirmable where the request is.
pub proof fn law_answers_mirror_the_request(message: MessageView, id: Seq<char>)
    requires
        response_to(message) is Some,
    ensures
        answer_to(message, id).message_id == message.message_id,
        answer_to(message, id).token == message.token,
        answer_to(message, id).payload == Seq::<u8>::empty(),
        message.kind == MessageKind::Confirmable ==> answer_to(message, id).kind
            == MessageKind::Acknowledgement,
        message.kind == MessageKind::NonConfirmable ==> answer_to(message, id).kind
            == MessageKind::NonConfirmable,
{
}

/// A `POST` whose path is the one segment `rd` asks to register.
pub proof fn law_post_to_rd_registers(message: MessageView)
    requires
        method_of(message.code) == Method::Post,
        values_of(message.options, URI_PATH) == seq![encode_utf8("rd"@)],
    ensures
        is_registration(message),
{
    let segments = values_of(message.options, URI_PATH);
    encode_utf8_valid_utf8("rd"@);
    encode_utf8_decode_utf8("rd"@);
    assert(segments.drop_last() =~= Seq::empty());
    assert(segments.last() == encode_utf8("rd"@));
}

/// A registration is answered `2.01 Created`; the segments of the location, read as text, are `rd` and
/// the id.
pub proof fn law_registration_is_located(message: MessageView, id: Seq<char>)
    requires
        is_registration(message),
        response_to(message) is Some,
    ensures
        answer_to(message, id).code == CREATED,
        ({
            let location = values_of(answer_to(message, id).options, LOCATION_PATH);
            &&& location.len() == 2
            &&& valid_utf8(location[0]) && decode_utf8(location[0]) == "rd"@
            &&& valid_utf8(location[1]) && decode_utf8(location[1]) == id
        }),
{
    let options = answer_to(message, id).options;
    encode_utf8_valid_utf8("rd"@);
    encode_utf8_decode_utf8("rd"@);
    encode_utf8_valid_utf8(id);
    encode_utf8_decode_utf8(id);
    assert(options.drop_last() =~= seq![options[0]]);
    assert(options.drop_last().drop_last() =~= Seq::empty());
    reveal_with_fuel(values_of, 3);
}

/// A request that is no registration is answered `5.00 Internal Server Error` without options.
pub proof fn law_other_requests_are_refused(message: MessageView, id: Seq<char>)
    requires
        !is_registration(message),
        response_to(message) is Some,
    ensures
        answer_to(message, id).code == INTERNAL_SERVER_ERROR,
        answer_to(message, id).options.len() == 0,
{
}

/// A path is that of the segments that are text.
proof fn lemma_path_is_of_the_texts(segments: Seq<Seq<u8>>)
    ensures
        path_text(segments) == path_text(segments.filter(|s: Seq<u8>| valid_utf8(s))),
        no_text(segments) <==> segments.filter(|s: Seq<u8>| valid_utf8(s)).len() == 0,
    decreases segments.len(),
{
    reveal(Seq::filter);
    if segments.len() > 0 {
        let rest = segments.drop_last();
        let texts = rest.filter(|s: Seq<u8>| valid_utf8(s));
        lemma_path_is_of_the_texts(rest);
        assert forall|i: int| 0 <= i < texts.len() implies valid_utf8(#[trigger] texts[i]) by {
            broadcast use vstd::seq_lib::group_filter_ensures;

        }
        if valid_utf8(segments.last()) {
            assert(texts.push(segments.last()).drop_last() =~= texts);
            assert(!no_text(segments));
            if texts.len() > 0 {
                assert(valid_utf8(texts[0]));
            }
        } else {
            assert(no_text(rest) ==> no_text(segments)) by {
                assert forall|i: int| no_text(rest) && 0 <= i < segments.len() implies !valid_utf8(
                    #[trigger] segments[i],
                ) by {
                    if i < rest.len() {
                        assert(rest[i] == segments[i]);
                    }
                }
            }
            assert(no_text(segments) ==> no_text(rest)) by {
                assert forall|i: int| no_text(segments) && 0 <= i < rest.len() implies !valid_utf8(
                    #[trigger] rest[i],
                ) by {
                    assert(rest[i] == segments[i]);
                }
            }
        }
    }
}

/// A path of texts is `rd` if and only if it is the one segment `rd`.
proof fn lemma_rd_is_one_segment(texts: Seq<Seq<u8>>)
    requires
        forall|i: int| 0 <= i < texts.len() ==> valid_utf8(#[trigger] texts[i]),
    ensures
        path_text(texts) == "rd"@ <==> texts == seq![seq![0x72u8, 0x64u8]],
{
    reveal_strlit("rd");
    let rd = seq![0x72u8, 0x64u8];
    assert(is_ascii_chars("rd"@));
    is_ascii_chars_encode_utf8("rd"@);
    encode_utf8_valid_utf8("rd"@);
    encode_utf8_decode_utf8("rd"@);
    assert(encode_utf8("rd"@) =~= rd);
    if texts.len() == 1 {
        assert(texts.drop_last() =~= Seq::empty());
        decode_utf8_encode_utf8(texts[0]);
        assert(texts =~= seq![texts[0]]);
        if texts == seq![rd] {
            assert(texts[0] == rd);
        }
    } else if texts.len() > 1 {
        let rest = texts.drop_last();
        assert(valid_utf8(rest[0])) by {
            assert(rest[0] == texts[0]);
        }
        let place = path_text(rest).len() as int;
        assert(path_text(texts)[place] == '/');
        assert("rd"@[0] != '/' && "rd"@[1] != '/');
        assert(seq![rd].len() == 1);
    } else {
        assert(seq![rd].len() == 1);
    }
}

/// A message asks to register if and only if its method is `POST` (code 0.02) and its path is `rd`: of its
/// `Uri-Path` values, those that are text are the one value of the bytes `r` and `d`. A second segment, an
/// empty one too, or any other text makes it another request.
pub proof fn law_only_posts_to_rd_register(message: MessageView)
    ensures
        is_registration(message) <==> message.code == 2 && path_text(
            values_of(message.options, URI_PATH),
        ) == "rd"@,
        is_registration(message) <==> message.code == 2 && values_of(
            message.options,
            URI_PATH,
        ).filter(|s: Seq<u8>| valid_utf8(s)) == seq![seq![0x72u8, 0x64u8]],
        (forall|i: int|
            0 <= i < values_of(message.options, URI_PATH).len() ==> valid_utf8(
                #[trigger] values_of(message.options, URI_PATH)[i],
            )) ==> (is_registration(message) <==> message.code == 2 && values_of(
            message.options,
            URI_PATH,
        ) == seq![seq![0x72u8, 0x64u8]]),
{
    let segments = values_of(message.options, URI_PATH);
    let texts = segments.filter(|s: Seq<u8>| valid_utf8(s));
    lemma_path_is_of_the_texts(segments);
    assert forall|i: int| 0 <= i < texts.len() implies valid_utf8(#[trigger] texts[i]) by {
        broadcast use vstd::seq_lib::group_filter_ensures;

    }
    lemma_rd_is_one_segment(texts);
    if forall|i: int| 0 <= i < segments.len() ==> valid_utf8(#[trigger] segments[i]) {
        lemma_rd_is_one_segment(segments);
    }
}

/// The datagram that answers a request holds `2.01 Created` if and only if the request is a `POST` to the one
/// segment `rd`, and `5.00 Internal Server Error` without options for every other method and path.
pub proof fn law_only_registrations_are_created(
    bytes: Seq<u8>,
    peer: Seq<char>,
    id: Seq<char>,
    answer: DatagramView,
)
    requires
        serving_error(bytes) is None,
        carries(answer, peer, answer_to(decoded(bytes).unwrap(), id)),
    ensures
        answer.peer == peer,
        decoded(bytes) matches Some(message) && decoded(answer.bytes) matches Some(sent) && {
            let segments = values_of(message.options, URI_PATH);
            let texts = segments.filter(|s: Seq<u8>| valid_utf8(s));
            let asked = message.code == 2 && texts == seq![seq![0x72u8, 0x64u8]];
            &&& sent.code == 0x41 <==> asked
            &&& sent.code == 0xA0 <==> !asked
            &&& !asked ==> sent.options.len() == 0
            &&& sent.code == 0x41 ==> path_text(segments) == "rd"@
            &&& encoded(sent) == Some(answer.bytes)
        },
{
    law_only_posts_to_rd_register(decoded(bytes).unwrap());
}

/// The answer to a request, field by field.
pub proof fn law_answers_are_exact(message: MessageView, id: Seq<char>)
    requires
        message.kind == MessageKind::Confirmable || message.kind == MessageKind::NonConfirmable,
    ensures
        answer_to(message, id) == (MessageView {
            version: 1,
            kind: if message.kind == MessageKind::Confirmable {
                MessageKind::Acknowledgement
            } else {
                MessageKind::NonConfirmable
            },
            code: if is_registration(message) {
                0x41
            } else {
                0xA0
            },
            message_id: message.message_id,
            token: message.token,
            options: if is_registration(message) {
                seq![(8u16, seq![0x72u8, 0x64u8]), (8u16, encode_utf8(id))]
            } else {
                Seq::empty()
            },
            payload: Seq::empty(),
        }),
{
    reveal_strlit("rd");
    assert(is_ascii_chars("rd"@));
    is_ascii_chars_encode_utf8("rd"@);
    assert(encode_utf8("rd"@) =~= seq![0x72u8, 0x64u8]);
}

/// Any message is made the answer to a registration by its code and its options, and a refusal likewise;
/// nothing else of it changes.
pub proof fn law_answers_keep_the_blank(blank: MessageView, id: Seq<char>)
    ensures
        registered(blank, id).version == blank.version,
        registered(blank, id).kind == blank.kind,
        registered(blank, id).code == 0x41,
        registered(blank, id).message_id == blank.message_id,
        registered(blank, id).token == blank.token,
        registered(blank, id).payload == blank.payload,
        registered(blank, id).options == seq![
            (8u16, encode_utf8("rd"@)),
            (8u16, encode_utf8(id)),
        ],
        refused(blank).version == blank.version,
        refused(blank).kind == blank.kind,
        refused(blank).code == 0xA0,
        refused(blank).message_id == blank.message_id,
        refused(blank).token == blank.token,
        refused(blank).payload == blank.payload,
        refused(blank).options.len() == 0,
{
}

/// Bytes that are a message, but an acknowledgement or a reset, are refused for their path or method; bytes
/// that are no message fail to parse.
pub proof fn law_errors_follow_the_bytes(bytes: Seq<u8>)
    ensures
        decoded(bytes) is None ==> serving_error(bytes) == Some(ServerError::CoapParsing),
        decoded(bytes) matches Some(message) ==> {
            &&& message.kind == MessageKind::Acknowledgement || message.kind == MessageKind::Reset
                <==> serving_error(bytes) == Some(ServerError::WrongPathOrMethod)
            &&& message.kind == MessageKind::Confirmable || message.kind
                == MessageKind::NonConfirmable <==> serving_error(bytes) is None
        },
{
}

/// A registration id is ten characters, each a digit or an ASCII letter, and any ten such characters are
/// one.
pub proof fn law_registration_ids_are_ten_letters_and_digits(id: Seq<char>)
    ensures
        is_registration_id(id) <==> id.len() == 10 && forall|i: int|
            0 <= i < 10 ==> 48 <= #[trigger] id[i] as int <= 57 || 65 <= id[i] as int <= 90 || 97
                <= id[i] as int <= 122,
{
}

} // verus!
