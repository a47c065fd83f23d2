use coap_lite::block_handler::BlockValue;
use coap_lite::option_value::OptionValueString;
use coap_lite::CoapOption::LocationPath;
use coap_lite::MessageClass::Response;
use coap_lite::ResponseType::Created;
use coap_lite::{CoapOption, CoapRequest, MessageType, Packet, RequestType};
use lwm2m_server_rs::block::{
    lwm2m_block_handler_config, BlockLayer, BlockService, BlockStep,
};
use lwm2m_server_rs::error::ServerError;
use lwm2m_server_rs::handler::MessageHandler;
use lwm2m_server_rs::reliability::{coap_cache_layer, coap_coalesce_layer, coap_retry_layer};
use lwm2m_server_rs::server::{EventLoop, ServerAction, ServerEvent};
use lwm2m_server_rs::transport::TransportMessage;
use std::collections::HashSet;
use tower::util::BoxService;
use tower::{Service, ServiceBuilder, ServiceExt};

/// A server whose transport is the test itself.
struct TestServer {
    runtime: tokio::runtime::Runtime,
    block: BlockService,
    inner: BoxService<TransportMessage, TransportMessage, ServerError>,
    events: EventLoop,
}

impl TestServer {
    fn new() -> TestServer {
        let inner = ServiceBuilder::new()
            .boxed()
            .map_err(ServerError::from)
            .layer(coap_cache_layer())
            .map_err(ServerError::from)
            .layer(coap_coalesce_layer().layer)
            .layer(coap_retry_layer())
            .service(tower::service_fn(|msg: TransportMessage| async move {
                MessageHandler::process_message(msg)
            }));
        TestServer {
            runtime: tokio::runtime::Builder::new_current_thread()
                .enable_all()
                .build()
                .unwrap(),
            block: BlockLayer::new(lwm2m_block_handler_config()).layer(),
            inner,
            events: EventLoop::new(),
        }
    }

    fn serve(&mut self, msg: TransportMessage) -> Result<TransportMessage, ServerError> {
        let inner = &mut self.inner;
        let runtime = &self.runtime;
        let mut call = |msg: TransportMessage| {
            runtime.block_on(async { inner.ready().await.unwrap().call(msg).await })
        };
        match self.block.handle_request(msg).unwrap() {
            BlockStep::Reply(reply) => Ok(reply),
            BlockStep::Bypass(msg) => call(msg),
            BlockStep::Forward(msg, pending) => {
                let resp = call(msg)?;
                Ok(self.block.handle_response(pending, resp).unwrap())
            }
        }
    }

    /// What goes out for datagrams that all come in before any of them is answered.
    fn exchange_in_flight(&mut self, datagrams: Vec<TransportMessage>) -> Vec<TransportMessage> {
        let mut tasks = Vec::new();
        for msg in datagrams {
            let msg = match self.events.on_event(ServerEvent::Received(msg)) {
                ServerAction::Dispatch(msg) => msg,
                _ => panic!("a datagram must be dispatched"),
            };
            match self.block.handle_request(msg).unwrap() {
                BlockStep::Forward(msg, pending) => tasks.push((pending, self.inner.call(msg))),
                _ => panic!("must be forwarded"),
            }
        }
        let mut sent = Vec::new();
        let handles: Vec<_> = tasks
            .into_iter()
            .map(|(pending, task)| (pending, self.runtime.spawn(task)))
            .collect();
        for (pending, handle) in handles {
            let resp = self.runtime.block_on(handle).unwrap().unwrap();
            let answer = self.block.handle_response(pending, resp).unwrap();
            match self.events.on_event(ServerEvent::Answered(answer)) {
                ServerAction::Send(answer) => sent.push(answer),
                _ => panic!("an answer must be sent"),
            }
        }
        assert!(!self.events.awaits_tasks());
        sent
    }

    /// What goes out for a datagram that comes in.
    fn exchange(&mut self, address: &str, bytes: Vec<u8>) -> Option<TransportMessage> {
        let msg = TransportMessage::new(address.to_string(), bytes);
        let msg = match self.events.on_event(ServerEvent::Received(msg)) {
            ServerAction::Dispatch(msg) => msg,
            _ => panic!("a datagram must be dispatched"),
        };
        let event = match self.serve(msg) {
            Ok(answer) => ServerEvent::Answered(answer),
            Err(e) => ServerEvent::Failed(e),
        };
        match self.events.on_event(event) {
            ServerAction::Send(answer) => Some(answer),
            _ => None,
        }
    }
}

fn create_reg_message_for_tests() -> CoapRequest<String> {
    let mut request: CoapRequest<String> = CoapRequest::new();

    request.set_method(RequestType::Post);
    request.message.header.set_type(MessageType::Confirmable);

    request.set_path("/rd");
    request
        .message
        .set_content_format(coap_lite::ContentFormat::ApplicationLinkFormat);
    request
        .message
        .add_option(CoapOption::UriQuery, b"lwm2m=1.1".to_vec());
    request
        .message
        .add_option(CoapOption::UriQuery, b"ep=test-device".to_vec());
    request
        .message
        .add_option(CoapOption::UriQuery, b"lt=86400".to_vec());

    request.message.payload =
        br#"</>;rt="oma.lwm2m";ct=112,</1/1>,</3>;ver=1.0,</3/0>,</5>;ver=1.0,</5/0>"#.to_vec();

    request
}

fn location(packet: &Packet) -> Vec<String> {
    packet
        .get_options_as::<OptionValueString>(LocationPath)
        .unwrap()
        .iter()
        .map(|x| x.as_ref().unwrap().0.clone())
        .collect()
}

#[test]
fn lib_test_registration_msg() {
    let mut server = TestServer::new();
    let req = create_reg_message_for_tests().message.to_bytes().unwrap();
    let resp = server.exchange("2025:beef::1", req).unwrap();
    let resp = Packet::from_bytes(&resp.message_buf).unwrap();

    assert_eq!(resp.header.get_type(), MessageType::Acknowledgement);
    assert_eq!(resp.header.code, Response(Created));
    assert!(resp.payload.is_empty());

    let actual = location(&resp);
    assert_eq!(actual.len(), 2);
    assert_eq!(actual[0], "rd");
    assert_eq!(actual[1].len(), 10);
    assert!(actual[1].chars().all(char::is_alphanumeric));
}

#[test]
fn test_wrong_path() {
    let mut server = TestServer::new();
    let mut req: CoapRequest<String> = CoapRequest::new();
    req.set_method(RequestType::Post);
    req.message.header.set_type(MessageType::Confirmable);
    req.set_path("/wrong_url");

    let resp = server
        .exchange("2025:beef::1", req.message.to_bytes().unwrap())
        .unwrap();
    let resp = Packet::from_bytes(&resp.message_buf).unwrap();
    assert_eq!(resp.header.get_code(), "5.00");
}

#[test]
fn test_registration_msg_2_clients() {
    let mut server = TestServer::new();
    let req = create_reg_message_for_tests().message.to_bytes().unwrap();
    let clients = ["2025:beef::1", "2025:beef::2"];

    let mut reg_ids: HashSet<String> = HashSet::new();
    for address in clients {
        let resp = server.exchange(address, req.clone()).unwrap();
        assert_eq!(resp.peer_addr, address);
        let resp = Packet::from_bytes(&resp.message_buf).unwrap();

        assert_eq!(resp.header.get_type(), MessageType::Acknowledgement);
        assert_eq!(resp.header.code, Response(Created));
        assert!(resp.payload.is_empty());

        let segments = location(&resp);
        assert_eq!(segments[0], "rd");
        assert!(!reg_ids.contains(&segments[1]));
        reg_ids.insert(segments[1].clone());
    }
    assert_eq!(reg_ids.len(), clients.len());
}

/// RFC 7252 §4.5 – a message and its retransmission, both in flight before
/// either is answered, both receive a response, and the same one.
#[test]
fn test_duplicate_mid_both_receive_response() {
    let mut server = TestServer::new();
    let address = "2025:beef::1".to_string();
    let mut req = create_reg_message_for_tests();
    req.message.header.message_id = 0xBEEF;
    let raw = req.message.to_bytes().unwrap();

    let answers = server.exchange_in_flight(vec![
        TransportMessage::new(address.clone(), raw.clone()),
        TransportMessage::new(address.clone(), raw.clone()),
    ]);
    assert_eq!(answers.len(), 2);
    for resp in &answers {
        let resp = Packet::from_bytes(&resp.message_buf).unwrap();
        assert_eq!(resp.header.get_type(), MessageType::Acknowledgement);
        assert_eq!(resp.header.code, Response(Created));
    }
    assert_eq!(answers[0].message_buf, answers[1].message_buf);
}

/// A retransmission that comes in behind the answer gets that answer again.
#[test]
fn late_duplicates_are_answered_again() {
    let mut server = TestServer::new();
    let mut req = create_reg_message_for_tests();
    req.message.header.message_id = 0xBEEF;
    let raw = req.message.to_bytes().unwrap();
    let first = server.exchange("2025:beef::1", raw.clone()).unwrap();
    let second = server.exchange("2025:beef::1", raw).unwrap();
    assert_eq!(first.message_buf, second.message_buf);
}

/// A retransmitted last block of an upload gets the answer to the upload again.
#[test]
fn late_last_blocks_are_answered_again() {
    let mut server = TestServer::new();
    let mut answers: Vec<Vec<u8>> = Vec::new();
    for (num, more, mid) in [(0, true, 1u16), (1, false, 2), (1, false, 2)] {
        let mut req = create_reg_message_for_tests();
        req.message.header.message_id = mid;
        req.message.payload = vec![b'x'; 64];
        req.message.add_option_as(
            CoapOption::Block1,
            BlockValue::new(num, more, 64).unwrap(),
        );
        let raw = req.message.to_bytes().unwrap();
        answers.push(server.exchange("2025:beef::1", raw).unwrap().message_buf);
    }
    let codes: Vec<String> = answers
        .iter()
        .map(|a| Packet::from_bytes(a).unwrap().header.get_code())
        .collect();
    assert_eq!(codes, vec!["2.31", "2.01", "2.01"]);
    assert_eq!(answers[1], answers[2]);
}

/// Malformed datagrams are not answered.
#[test]
fn malformed_datagrams_are_not_answered() {
    let mut server = TestServer::new();
    assert!(server.exchange("2025:beef::1", vec![0xFF, 0xFE, 0xFD]).is_none());
}
