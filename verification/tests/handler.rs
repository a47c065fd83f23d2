use coap_lite::option_value::OptionValueString;
use coap_lite::CoapOption::LocationPath;
use coap_lite::MessageClass::Response;
use coap_lite::ResponseType::Created;
use coap_lite::{CoapOption, CoapRequest, MessageType, Packet, RequestType};
use lwm2m_server_rs::error::ServerError;
use lwm2m_server_rs::handler::MessageHandler;
use lwm2m_server_rs::transport::TransportMessage;
use std::collections::HashSet;

fn create_reg_message_for_tests() -> CoapRequest<String> {
    let mut request: CoapRequest<String> = CoapRequest::new();

    request.set_method(RequestType::Post);
    request.message.header.set_type(MessageType::Confirmable);

    request.set_path("/rd");
    request
        .message
        .set_content_format(coap_lite::ContentFormat::ApplicationLinkFormat);
    request
        .message
        .add_option(CoapOption::UriQuery, b"lwm2m=1.1".to_vec());
    request
        .message
        .add_option(CoapOption::UriQuery, b"ep=test-device".to_vec());
    request
        .message
        .add_option(CoapOption::UriQuery, b"lt=86400".to_vec());

    request.message.payload =
        br#"</>;rt="oma.lwm2m";ct=112,</1/1>,</3>;ver=1.0,</3/0>,</5>;ver=1.0,</5/0>"#.to_vec();

    request
}

fn make_transport_msg(bytes: Vec<u8>) -> TransportMessage {
    TransportMessage::new("127.0.0.1:1234".to_string(), bytes)
}

fn location(packet: &Packet) -> Vec<String> {
    packet
        .get_options_as::<OptionValueString>(LocationPath)
        .unwrap()
        .iter()
        .map(|x| x.as_ref().unwrap().0.clone())
        .collect()
}

#[test]
fn test_message_handler_direct_registration() {
    let req = create_reg_message_for_tests();
    let msg = make_transport_msg(req.message.to_bytes().unwrap());

    let response = MessageHandler::process_message(msg).unwrap();
    assert_eq!(response.peer_addr, "127.0.0.1:1234");
    let packet = Packet::from_bytes(&response.message_buf).unwrap();

    assert_eq!(packet.header.get_type(), MessageType::Acknowledgement);
    assert_eq!(packet.header.code, Response(Created));
    assert!(packet.payload.is_empty());

    let segments = location(&packet);
    assert_eq!(segments.len(), 2);
    assert_eq!(segments[0], "rd");
    assert_eq!(segments[1].len(), 10);
    assert!(segments[1].chars().all(char::is_alphanumeric));
}

#[test]
fn test_message_handler_invalid_bytes_returns_coap_parsing_error() {
    let msg = make_transport_msg(vec![0xFF, 0xFE, 0xFD]);
    let result = MessageHandler::process_message(msg);
    assert!(matches!(result, Err(ServerError::CoapParsing)));
}

#[test]
fn test_message_handler_non_confirmable_wrong_path_returns_internal_server_error() {
    // A Non-Confirmable message to an unknown path still receives a
    // 5.00 Internal Server Error response.
    let mut req: CoapRequest<String> = CoapRequest::new();
    req.set_method(RequestType::Post);
    req.message.header.set_type(MessageType::NonConfirmable);
    req.set_path("/unknown");

    let msg = make_transport_msg(req.message.to_bytes().unwrap());
    let result = MessageHandler::process_message(msg).unwrap();
    let packet = Packet::from_bytes(&result.message_buf).unwrap();
    assert_eq!(packet.header.get_code(), "5.00");
    assert_eq!(packet.header.get_type(), MessageType::NonConfirmable);
}

/// The answer has the id and the token of the request, and only the options of
/// its own.
#[test]
fn answers_mirror_the_request() {
    let mut req = create_reg_message_for_tests();
    req.message.header.message_id = 0xBEEF;
    req.message.set_token(vec![1, 2, 3, 4, 5, 6, 7, 8]);
    let msg = make_transport_msg(req.message.to_bytes().unwrap());
    let packet =
        Packet::from_bytes(&MessageHandler::process_message(msg).unwrap().message_buf).unwrap();
    assert_eq!(packet.header.message_id, 0xBEEF);
    assert_eq!(packet.get_token(), &[1, 2, 3, 4, 5, 6, 7, 8][..]);
    assert_eq!(packet.options().count(), 1);
}

/// Only a POST registers, and only at exactly `rd`.
#[test]
fn other_methods_and_paths_are_refused() {
    for (method, path) in [
        (RequestType::Get, "/rd"),
        (RequestType::Put, "/rd"),
        (RequestType::Post, "/rd/1"),
        (RequestType::Post, "/RD"),
        (RequestType::Post, ""),
    ] {
        let mut req: CoapRequest<String> = CoapRequest::new();
        req.set_method(method);
        req.set_path(path);
        let msg = make_transport_msg(req.message.to_bytes().unwrap());
        let result = MessageHandler::process_message(msg).unwrap();
        let packet = Packet::from_bytes(&result.message_buf).unwrap();
        assert_eq!(packet.header.get_code(), "5.00");
        assert_eq!(packet.options().count(), 0);
    }
}

/// An acknowledgement or a reset cannot be answered, whatever it addresses. It
/// parses all the same.
#[test]
fn unanswerable_messages_are_errors() {
    for kind in [MessageType::Acknowledgement, MessageType::Reset] {
        let mut req: CoapRequest<String> = CoapRequest::new();
        req.set_method(RequestType::Post);
        req.message.header.set_type(kind);
        req.set_path("/unknown");
        let msg = make_transport_msg(req.message.to_bytes().unwrap());
        let result = MessageHandler::process_message(msg);
        assert!(matches!(result, Err(ServerError::WrongPathOrMethod)));

        let mut req = create_reg_message_for_tests();
        req.message.header.set_type(kind);
        let msg = make_transport_msg(req.message.to_bytes().unwrap());
        let result = MessageHandler::process_message(msg);
        assert!(matches!(result, Err(ServerError::WrongPathOrMethod)));
    }
}

#[test]
fn registration_ids_are_ten_letters_and_digits() {
    let mut seen: HashSet<String> = HashSet::new();
    for _ in 0..100 {
        let id = MessageHandler::generate_registration_id();
        assert_eq!(id.len(), 10);
        assert!(id.bytes().all(|b| b.is_ascii_alphanumeric()));
        seen.insert(id);
    }
    assert!(seen.len() > 1);
}

#[test]
fn handlers_are_alike() {
    assert_eq!(MessageHandler::new(), MessageHandler::default());
}

#[test]
fn samples_spell_the_id() {
    let samples = b"aZ09bY18cX".to_vec();
    assert_eq!(MessageHandler::id_of(&samples), "aZ09bY18cX");
}
