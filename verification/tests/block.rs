use coap_lite::block_handler::BlockValue as WireBlock;
use coap_lite::{
    CoapOption, CoapRequest, MessageClass, MessageType, Packet, RequestType, ResponseType,
};
use lwm2m_server_rs::block::{
    lwm2m_block_handler_config, BlockHandlerConfig, BlockLayer, BlockService, BlockStep,
};
use lwm2m_server_rs::transport::TransportMessage;

const PEER: &str = "192.0.2.1:5683";

/// Serialises a CoAP POST to /test as a raw [`TransportMessage`].
fn make_post(payload: &[u8], block1: Option<WireBlock>, mid: u16) -> TransportMessage {
    let mut packet = Packet::new();
    packet.header.code = MessageClass::Request(RequestType::Post);
    packet.header.message_id = mid;
    packet.header.set_type(MessageType::Confirmable);
    packet.add_option(CoapOption::UriPath, b"test".to_vec());
    packet.payload = payload.to_vec();
    if let Some(b) = block1 {
        packet.add_option_as(CoapOption::Block1, b);
    }
    TransportMessage::new(
        PEER.to_string(),
        packet.to_bytes().expect("test packet must serialise"),
    )
}

/// Serialises a CoAP GET of /test, for a block of the answer where one is given.
fn make_get(block2: Option<WireBlock>, mid: u16) -> TransportMessage {
    let mut packet = Packet::new();
    packet.header.code = MessageClass::Request(RequestType::Get);
    packet.header.message_id = mid;
    packet.set_token(vec![7, mid as u8]);
    packet.add_option(CoapOption::UriPath, b"test".to_vec());
    if let Some(b) = block2 {
        packet.add_option_as(CoapOption::Block2, b);
    }
    TransportMessage::new(PEER.to_string(), packet.to_bytes().unwrap())
}

fn make_service(max_msg_size: usize) -> BlockService {
    BlockService::new(BlockHandlerConfig {
        max_total_message_size: max_msg_size,
        cache_expiry_millis: 120_000,
    })
}

/// Answers `2.01 Created` to whatever can be answered.
fn created(msg: TransportMessage) -> TransportMessage {
    let packet = Packet::from_bytes(&msg.message_buf).unwrap();
    let mut req = CoapRequest::<String>::from_packet(packet, msg.peer_addr.clone());
    if let Some(resp) = req.response.as_mut() {
        resp.set_status(ResponseType::Created);
        resp.message.clear_all_options();
    }
    let buf = req
        .response
        .and_then(|r| r.message.to_bytes().ok())
        .unwrap_or_default();
    TransportMessage::new(msg.peer_addr, buf)
}

/// Answers `2.05 Content` with the given body.
fn content(msg: TransportMessage, body: &[u8]) -> TransportMessage {
    let packet = Packet::from_bytes(&msg.message_buf).unwrap();
    let mut resp = CoapRequest::<String>::from_packet(packet, msg.peer_addr.clone())
        .response
        .unwrap();
    resp.message.payload = body.to_vec();
    TransportMessage::new(msg.peer_addr, resp.message.to_bytes().unwrap())
}

/// Runs one request through the block service in front of `inner`.
fn call<F: FnOnce(TransportMessage) -> TransportMessage>(
    svc: &mut BlockService,
    msg: TransportMessage,
    inner: F,
) -> TransportMessage {
    match svc.handle_request(msg).expect("the handler can take the request") {
        BlockStep::Reply(reply) => reply,
        BlockStep::Bypass(msg) => inner(msg),
        BlockStep::Forward(msg, pending) => {
            let resp = inner(msg);
            svc.handle_response(pending, resp)
                .expect("the handler can take the response")
        }
    }
}

fn response_code(resp_buf: &[u8]) -> String {
    Packet::from_bytes(resp_buf)
        .expect("response must be parseable")
        .header
        .get_code()
        .to_string()
}

fn block_in(resp_buf: &[u8], option: CoapOption) -> Option<WireBlock> {
    Packet::from_bytes(resp_buf)
        .unwrap()
        .get_first_option_as::<WireBlock>(option)
        .and_then(|x| x.ok())
}

/// Non-block request passes straight through; inner service returns 2.01.
#[test]
fn test_non_block_passthrough() {
    let mut svc = make_service(1152);
    let msg = make_post(b"</3>;ver=1.0", None, 1);
    let resp = call(&mut svc, msg, created);
    assert_eq!(response_code(&resp.message_buf), "2.01");
}

/// Oversized payload without a Block1 option: server must reply 4.13
/// (RFC 7959 §2.9) and hint at a suitable size in a Block1 option.
#[test]
fn test_too_large_without_block1_returns_413() {
    // 32 bytes leave only a few for the payload behind the header and options;
    // the 64-byte payload must be rejected.
    let mut svc = make_service(32);
    let big_payload = b"A".repeat(64);
    let msg = make_post(&big_payload, None, 2);
    let resp = call(&mut svc, msg, created);
    assert_eq!(
        response_code(&resp.message_buf),
        "4.13",
        "oversized payload without Block1 must return 4.13"
    );
    assert!(
        block_in(&resp.message_buf, CoapOption::Block1).is_some(),
        "4.13 response must include a Block1 option"
    );
    assert_eq!(
        block_in(&resp.message_buf, CoapOption::Block1),
        Some(WireBlock { num: 0, more: true, size_exponent: 0 })
    );
}

/// Intermediate Block1 block (M = 1): server must return 2.31 Continue
/// (RFC 7959 §2.9) without invoking the inner service.
#[test]
fn test_intermediate_block1_continue() {
    let mut svc = make_service(64);
    let blk = WireBlock::new(0, true, 16).unwrap(); // num=0, M=1, size=16
    let msg = make_post(b"0123456789abcdef", Some(blk), 3);
    let resp = call(&mut svc, msg, |_| panic!("the service must not be called"));
    assert_eq!(
        response_code(&resp.message_buf),
        "2.31",
        "intermediate block must return 2.31 Continue"
    );
}

/// Sends Block1 num=0 (M=1) followed by Block1 num=1 (M=0).
#[test]
fn test_two_block_upload_sequence() {
    let block_size = 16_usize;
    let mut svc = make_service(64);

    let part_a = b"0123456789abcdef"; // exactly block_size bytes
    let part_b = b"ghijklmnopqrstuv"; // exactly block_size bytes

    let blk0 = WireBlock::new(0, true, block_size).unwrap();
    let resp0 = call(&mut svc, make_post(part_a, Some(blk0), 10), created);
    assert_eq!(
        response_code(&resp0.message_buf),
        "2.31",
        "first block must get 2.31 Continue"
    );

    let blk1 = WireBlock::new(1, false, block_size).unwrap();
    let resp1 = call(&mut svc, make_post(part_b, Some(blk1), 11), created);
    assert_eq!(
        response_code(&resp1.message_buf),
        "2.01",
        "final block must get 2.01 Created"
    );

    // RFC 7959 §2.3: Block1 echo option must be present in the final response.
    let p = Packet::from_bytes(&resp1.message_buf).unwrap();
    let ack = p
        .get_first_option_as::<WireBlock>(CoapOption::Block1)
        .expect("Block1 ack option must be present")
        .expect("Block1 ack must be parseable");
    assert_eq!(ack.num, 1, "ack must acknowledge block num 1");
    assert!(!ack.more, "ack M-bit must be 0 for the final block");
}

/// The reassembled payload seen by the inner service is the concatenation of
/// all blocks in order.
#[test]
fn test_three_block_payload_reassembly() {
    let block_size = 16_usize;
    let mut captured: Vec<u8> = Vec::new();
    let mut svc = BlockService::new(BlockHandlerConfig {
        max_total_message_size: 64,
        cache_expiry_millis: 120_000,
    });

    let chunks: &[&[u8]] = &[
        b"0123456789abcdef",
        b"ghijklmnopqrstuv",
        b"wxyz012345678901",
    ];
    let expected: Vec<u8> = chunks.iter().flat_map(|c| c.iter().copied()).collect();

    for (i, chunk) in chunks.iter().enumerate() {
        let is_last = i + 1 == chunks.len();
        let blk = WireBlock::new(i, !is_last, block_size).unwrap();
        let resp = call(
            &mut svc,
            make_post(chunk, Some(blk), (i + 1) as u16),
            |msg| {
                captured = Packet::from_bytes(&msg.message_buf).unwrap().payload;
                created(msg)
            },
        );
        if is_last {
            assert_eq!(response_code(&resp.message_buf), "2.01");
        } else {
            assert_eq!(response_code(&resp.message_buf), "2.31");
        }
    }

    assert_eq!(
        captured, expected,
        "inner service must see the fully-reassembled payload"
    );
}

/// Blocks of two peers do not mix.
#[test]
fn uploads_of_two_peers_are_apart() {
    let mut svc = make_service(64);
    let blk0 = WireBlock::new(0, true, 16).unwrap();
    let blk1 = WireBlock::new(1, false, 16).unwrap();
    call(&mut svc, make_post(b"0123456789abcdef", Some(blk0.clone()), 1), created);
    let mut other = make_post(b"................", Some(blk0), 1);
    other.peer_addr = "192.0.2.2:5683".to_string();
    call(&mut svc, other, created);
    let mut captured: Vec<u8> = Vec::new();
    call(&mut svc, make_post(b"ghi", Some(blk1), 2), |msg| {
        captured = Packet::from_bytes(&msg.message_buf).unwrap().payload;
        created(msg)
    });
    assert_eq!(captured, b"0123456789abcdefghi".to_vec());
}

/// An upload beyond the codec's limit for datagrams reaches the service whole.
#[test]
fn upload_beyond_the_codec_limit_arrives_whole() {
    let mut svc = make_service(1152);
    let part = b"A".repeat(1024);
    let tail = b"B".repeat(1000);
    let blk0 = WireBlock::new(0, true, 1024).unwrap();
    let blk1 = WireBlock::new(1, false, 1024).unwrap();
    let resp = call(&mut svc, make_post(&part, Some(blk0), 1), |_| {
        panic!("the service must not be called")
    });
    assert_eq!(response_code(&resp.message_buf), "2.31");
    let mut captured: Vec<u8> = Vec::new();
    let resp = call(&mut svc, make_post(&tail, Some(blk1), 2), |msg| {
        captured = Packet::from_bytes(&msg.message_buf).unwrap().payload;
        created(msg)
    });
    assert_eq!(captured, [part, tail].concat());
    assert_eq!(response_code(&resp.message_buf), "2.01");
    assert_eq!(
        block_in(&resp.message_buf, CoapOption::Block1),
        Some(WireBlock { num: 1, more: false, size_exponent: 6 })
    );
}

/// A block that cannot be taken in is answered 4.08 and never reaches the
/// service: there is no room for block options, it reaches too far beyond what
/// has come in, or its number does not fit the option value that is read.
#[test]
fn blocks_that_cannot_be_taken_in_are_refused() {
    for more in [true, false] {
        let blk = WireBlock::new(0, more, 16).unwrap();
        let mut svc = make_service(16);
        let resp = call(&mut svc, make_post(b"0123456789abcdef", Some(blk), 3), |_| {
            panic!("the service must not be called")
        });
        assert_eq!(response_code(&resp.message_buf), "4.08");
        let packet = Packet::from_bytes(&resp.message_buf).unwrap();
        assert_eq!(packet.header.message_id, 3);
        assert_eq!(packet.header.get_type(), MessageType::Acknowledgement);

        let blk = WireBlock::new(16, more, 1024).unwrap();
        let mut svc = make_service(1152);
        let resp = call(&mut svc, make_post(b"tail", Some(blk), 4), |_| {
            panic!("the service must not be called")
        });
        assert_eq!(response_code(&resp.message_buf), "4.08");
    }

    let mut packet = Packet::new();
    packet.header.code = MessageClass::Request(RequestType::Post);
    packet.add_option(CoapOption::UriPath, b"test".to_vec());
    packet.add_option(CoapOption::Block1, vec![0x01, 0x00, 0x06]);
    packet.payload = b"part".to_vec();
    let msg = TransportMessage::new(PEER.to_string(), packet.to_bytes().unwrap());
    let mut svc = make_service(1152);
    let resp = call(&mut svc, msg, |_| panic!("the service must not be called"));
    assert_eq!(response_code(&resp.message_buf), "4.08");
}

/// A POST to /test in a message that cannot be answered, with a block of a body.
fn unanswerable_post(kind: MessageType, path: &str, num: usize, more: bool) -> TransportMessage {
    let mut packet = Packet::new();
    packet.header.code = MessageClass::Request(RequestType::Post);
    packet.header.set_type(kind);
    packet.add_option(CoapOption::UriPath, path.as_bytes().to_vec());
    packet.add_option_as(CoapOption::Block1, WireBlock::new(num, more, 16).unwrap());
    packet.payload = b"0123456789abcdef".to_vec();
    TransportMessage::new(PEER.to_string(), packet.to_bytes().unwrap())
}

/// A part of a body in a message that cannot be answered goes no further, and
/// no bytes go out.
#[test]
fn unanswerable_parts_go_no_further() {
    for kind in [MessageType::Acknowledgement, MessageType::Reset] {
        for path in ["rd", "test"] {
            let msg = unanswerable_post(kind, path, 0, true);
            match make_service(1152).handle_request(msg).unwrap() {
                BlockStep::Reply(reply) => {
                    assert_eq!(reply.peer_addr, PEER);
                    assert!(reply.message_buf.is_empty());
                }
                _ => panic!("the service must not be called"),
            }
        }
    }
}

/// A whole body in a message that cannot be answered reaches the service.
#[test]
fn unanswerable_whole_uploads_reach_the_service() {
    for kind in [MessageType::Acknowledgement, MessageType::Reset] {
        let mut svc = make_service(1152);
        match svc.handle_request(unanswerable_post(kind, "test", 0, false)).unwrap() {
            BlockStep::Forward(msg, pending) => {
                assert!(!pending.answerable);
                let packet = Packet::from_bytes(&msg.message_buf).unwrap();
                assert_eq!(packet.payload, b"0123456789abcdef".to_vec());
            }
            _ => panic!("must be forwarded"),
        }

        let mut svc = make_service(1152);
        svc.handle_request(unanswerable_post(kind, "test", 0, true)).unwrap();
        match svc.handle_request(unanswerable_post(kind, "test", 1, false)).unwrap() {
            BlockStep::Forward(msg, _) => {
                let packet = Packet::from_bytes(&msg.message_buf).unwrap();
                assert_eq!(packet.payload, b"0123456789abcdef0123456789abcdef".to_vec());
            }
            _ => panic!("must be forwarded"),
        }
    }
}

/// A last block that also asks for a block beyond the end of an answer that is
/// being handed out reaches the service with the whole body; its answer echoes
/// Block1.
#[test]
fn last_block_beyond_a_held_answer_reaches_the_service() {
    let mut svc = make_service(64);
    let body: Vec<u8> = (0..100u8).collect();
    let resp = call(&mut svc, make_post(b"go", None, 1), |msg| content(msg, &body));
    assert!(block_in(&resp.message_buf, CoapOption::Block2).unwrap().more);

    let blk0 = WireBlock::new(0, true, 16).unwrap();
    call(&mut svc, make_post(b"0123456789abcdef", Some(blk0), 2), created);
    let mut packet = Packet::from_bytes(
        &make_post(b"ghi", Some(WireBlock::new(1, false, 16).unwrap()), 3).message_buf,
    )
    .unwrap();
    packet.add_option_as(CoapOption::Block2, WireBlock::new(50, false, 16).unwrap());
    let msg = TransportMessage::new(PEER.to_string(), packet.to_bytes().unwrap());
    let mut captured: Vec<u8> = Vec::new();
    let resp = call(&mut svc, msg, |msg| {
        captured = Packet::from_bytes(&msg.message_buf).unwrap().payload;
        created(msg)
    });
    assert_eq!(captured, b"0123456789abcdefghi".to_vec());
    assert_eq!(response_code(&resp.message_buf), "2.01");
    assert_eq!(
        block_in(&resp.message_buf, CoapOption::Block1),
        Some(WireBlock { num: 1, more: false, size_exponent: 0 })
    );
}

/// A first request may ask for the block size of the answer.
#[test]
fn first_request_chooses_the_block_size() {
    let body: Vec<u8> = (0..40u8).collect();
    let mut svc = make_service(1152);
    let mut received: Vec<u8> = Vec::new();
    for num in 0..3usize {
        let ask = WireBlock::new(num, false, 16).unwrap();
        let resp = call(&mut svc, make_get(Some(ask), num as u16), |msg| {
            assert_eq!(num, 0, "the service is called once");
            content(msg, &body)
        });
        assert_eq!(
            block_in(&resp.message_buf, CoapOption::Block2),
            Some(WireBlock { num: num as u16, more: num < 2, size_exponent: 0 })
        );
        received.extend(Packet::from_bytes(&resp.message_buf).unwrap().payload);
    }
    assert_eq!(received, body);
}

/// Uploads of two peers whose blocks take turns do not mix.
#[test]
fn interleaved_uploads_do_not_mix() {
    let mut svc = make_service(64);
    let parts: [[&[u8]; 2]; 3] = [
        [b"0123456789abcdef", b"AAAAAAAAAAAAAAAA"],
        [b"ghijklmnopqrstuv", b"BBBBBBBBBBBBBBBB"],
        [b"wxyz", b"CCCCCCCC"],
    ];
    let mut bodies: [Vec<u8>; 2] = [Vec::new(), Vec::new()];
    for (i, turn) in parts.iter().enumerate() {
        for (peer, part) in turn.iter().enumerate() {
            let blk = WireBlock::new(i, i < 2, 16).unwrap();
            let mut msg = make_post(part, Some(blk), i as u16);
            msg.peer_addr = format!("192.0.2.{}:5683", peer);
            call(&mut svc, msg, |msg| {
                bodies[peer] = Packet::from_bytes(&msg.message_buf).unwrap().payload;
                created(msg)
            });
        }
    }
    assert_eq!(bodies[0], b"0123456789abcdefghijklmnopqrstuvwxyz".to_vec());
    assert_eq!(bodies[1], b"AAAAAAAAAAAAAAAABBBBBBBBBBBBBBBBCCCCCCCC".to_vec());
}

/// A small answer to a plain request goes out as the service gave it, also
/// behind an earlier request that asked for a block.
#[test]
fn small_answers_are_unchanged() {
    let mut svc = make_service(1152);
    let ask = WireBlock::new(0, false, 16).unwrap();
    call(&mut svc, make_get(Some(ask), 1), |msg| content(msg, b"small"));
    let mut own: Vec<u8> = Vec::new();
    let resp = call(&mut svc, make_get(None, 2), |msg| {
        let answer = content(msg, b"a small answer");
        own = answer.message_buf.clone();
        answer
    });
    assert_eq!(resp.message_buf, own);
}

/// A request with an option of 300 bytes reaches the service as it was sent.
#[test]
fn long_options_pass_through() {
    let mut packet = Packet::new();
    packet.add_option(CoapOption::UriQuery, vec![b'q'; 300]);
    packet.add_option(CoapOption::Unknown(1000), vec![1, 2, 3]);
    let sent = packet.to_bytes().unwrap();
    let msg = TransportMessage::new(PEER.to_string(), sent.clone());
    let step = make_service(1152).handle_request(msg).unwrap();
    assert!(matches!(step, BlockStep::Forward(m, _) if m.message_buf == sent));
}

/// A large answer goes out block by block; put together, the blocks are the
/// answer's body, and the service is called once.
#[test]
fn large_answer_is_handed_out_in_blocks() {
    let body: Vec<u8> = (0..100u8).collect();
    let mut svc = make_service(64);
    let resp = call(&mut svc, make_get(None, 1), |msg| content(msg, &body));
    assert_eq!(response_code(&resp.message_buf), "2.05");
    let first = block_in(&resp.message_buf, CoapOption::Block2).unwrap();
    assert_eq!(first, WireBlock { num: 0, more: true, size_exponent: 1 });
    let mut received = Packet::from_bytes(&resp.message_buf).unwrap().payload;
    assert_eq!(received, body[..32].to_vec());

    for num in 1..4usize {
        let mid = (num + 1) as u16;
        let ask = WireBlock::new(num, false, 32).unwrap();
        let resp = call(&mut svc, make_get(Some(ask), mid), |_| {
            panic!("the service must not be called")
        });
        let packet = Packet::from_bytes(&resp.message_buf).unwrap();
        assert_eq!(packet.header.message_id, mid);
        assert_eq!(packet.get_token(), &[7, mid as u8][..]);
        assert_eq!(
            block_in(&resp.message_buf, CoapOption::Block2).unwrap(),
            WireBlock { num: num as u16, more: num < 3, size_exponent: 1 }
        );
        received.extend(packet.payload);
    }
    assert_eq!(received, body);

    // The last block has gone out, so the answer is no longer kept.
    let ask = WireBlock::new(1, false, 32).unwrap();
    let step = svc.handle_request(make_get(Some(ask), 9)).unwrap();
    assert!(matches!(step, BlockStep::Forward(_, _)));
}

/// Bytes that are no message go to the service as they are.
#[test]
fn unparseable_bytes_bypass() {
    let mut svc = make_service(1152);
    let msg = TransportMessage::new(PEER.to_string(), vec![0xFF, 0xFE, 0xFD]);
    let step = svc.handle_request(msg).unwrap();
    assert!(matches!(step, BlockStep::Bypass(m) if m.message_buf == vec![0xFF, 0xFE, 0xFD]));
}

/// An acknowledgement cannot be answered: it goes on, and what comes back is
/// not touched.
#[test]
fn acknowledgements_are_not_answered() {
    let mut svc = make_service(1152);
    let mut packet = Packet::new();
    packet.header.set_type(MessageType::Acknowledgement);
    let msg = TransportMessage::new(PEER.to_string(), packet.to_bytes().unwrap());
    match svc.handle_request(msg).unwrap() {
        BlockStep::Forward(_, pending) => {
            assert!(!pending.answerable);
            let own = make_get(None, 5);
            let answer = svc.handle_response(pending, own.clone()).unwrap();
            assert_eq!(answer.message_buf, own.message_buf);
        }
        _ => panic!("must be forwarded"),
    }
}

/// An answer that holds no message goes out as it is.
#[test]
fn unparseable_answers_go_out_as_they_are() {
    let mut svc = make_service(1152);
    let answer = call(&mut svc, make_get(None, 1), |msg| {
        TransportMessage::new(msg.peer_addr, vec![1, 2])
    });
    assert_eq!(answer.message_buf, vec![1, 2]);
}

/// The handler cannot deal with a block upload that leaves exactly no room, nor
/// with a header and options over the codec's limit.
#[test]
fn requests_that_the_handler_cannot_take() {
    let blk = WireBlock::new(0, true, 16).unwrap();
    let msg = make_post(b"0123456789abcdef", Some(blk), 3);
    let overhead = msg.message_buf.len() - 17;
    assert!(make_service(overhead + 12).handle_request(msg.clone()).is_none());
    assert!(make_service(overhead + 13).handle_request(msg.clone()).is_some());
    assert!(make_service(overhead + 11).handle_request(msg).is_some());

    let mut packet = Packet::new();
    for _ in 0..6 {
        packet.add_option(CoapOption::UriQuery, vec![b'q'; 255]);
    }
    let bytes = packet.to_bytes_unlimited().unwrap();
    let msg = TransportMessage::new(PEER.to_string(), bytes);
    assert!(make_service(1152).handle_request(msg).is_none());
}

/// Where exactly no room is left behind an answer's header and options, the
/// answer goes out whole; one over the codec's limit cannot be dealt with.
#[test]
fn answers_without_room_go_out_whole() {
    // A blank answer to a request without token takes four bytes.
    let mut svc = make_service(4 + 12);
    let mut packet = Packet::new();
    packet.header.message_id = 9;
    let msg = TransportMessage::new(PEER.to_string(), packet.to_bytes().unwrap());
    match svc.handle_request(msg.clone()).unwrap() {
        BlockStep::Forward(_, pending) => {
            let own = content(msg.clone(), b"whole");
            let answer = svc.handle_response(pending, own.clone()).unwrap();
            assert_eq!(answer.message_buf, own.message_buf);
        }
        _ => panic!("must be forwarded"),
    }

    let mut svc = make_service(1152);
    match svc.handle_request(msg.clone()).unwrap() {
        BlockStep::Forward(_, pending) => {
            let mut packet = Packet::new();
            for _ in 0..6 {
                packet.add_option(CoapOption::UriQuery, vec![b'q'; 255]);
            }
            let bytes = packet.to_bytes_unlimited().unwrap();
            let big = TransportMessage::new(PEER.to_string(), bytes);
            assert!(svc.handle_response(pending, big).is_none());
        }
        _ => panic!("must be forwarded"),
    }
}

/// 1152 bytes and 247 seconds, which leaves room for blocks of 1024 bytes.
#[test]
fn lwm2m_settings() {
    let config = lwm2m_block_handler_config();
    assert_eq!(config.max_total_message_size, 1152);
    assert_eq!(config.cache_expiry_millis, 247_000);

    let layer = BlockLayer::new(config);
    assert_eq!(layer.max_total_message_size, 1152);
    assert_eq!(layer.cache_expiry_millis, 247_000);
    let mut svc = layer.layer();
    let resp = call(&mut svc, make_post(&b"A".repeat(1200), None, 1), created);
    assert_eq!(response_code(&resp.message_buf), "4.13");
    assert_eq!(
        block_in(&resp.message_buf, CoapOption::Block1),
        Some(WireBlock { num: 0, more: true, size_exponent: 6 })
    );
}

/// A transfer that has outlived its expiry time is dropped. The last block then
/// stands behind zeros, as the retransmission of a last block does.
#[test]
fn transfers_expire() {
    let mut svc = BlockService::new(BlockHandlerConfig {
        max_total_message_size: 64,
        cache_expiry_millis: 0,
    });
    let blk0 = WireBlock::new(0, true, 16).unwrap();
    call(&mut svc, make_post(b"0123456789abcdef", Some(blk0), 1), created);
    let runtime = tokio::runtime::Builder::new_current_thread()
        .enable_all()
        .build()
        .unwrap();
    runtime.block_on(async { tokio::time::sleep(std::time::Duration::from_millis(20)).await });
    let blk1 = WireBlock::new(1, false, 16).unwrap();
    let mut captured: Vec<u8> = Vec::new();
    call(&mut svc, make_post(b"ghi", Some(blk1), 2), |msg| {
        captured = Packet::from_bytes(&msg.message_buf).unwrap().payload;
        created(msg)
    });
    let mut expected = vec![0u8; 16];
    expected.extend(b"ghi");
    assert_eq!(captured, expected);
}
