use bytes::BytesMut;
use vstp::codec::StreamFramer;
use vstp::decimal::{format_decimal, parse_decimal};
use vstp::fragments::{add_fragment_headers, extract_fragment_info, fragment_payload};
use vstp::observer::{frame_wire_len, udp_session_id, BlockList, ErrorCounters};
use vstp::reassembly::{Fragment, ReassemblyManager};
use vstp::reliability::{
    ack_for, calculate_retry_delay, extract_msg_id, is_matching_ack, with_msg_id, ReliableSend,
    SendAction, SendPhase, UdpConfig, UdpSendState, UdpServerConfig,
};
use vstp::tcp::{bye_frame, data_frame, hello_frame, ConnState, SessionIds, TcpConnection, Verdict};
use vstp::udp::{plan_datagrams, process_datagram, reassemble_frame, DatagramOutcome};
use vstp::{
    encode_frame, try_decode_frame, CrcValidator, ErrorKind, ErrorType, Flags, Frame, FrameType, Header,
    PeerAddr, VstpError,
};

fn peer(n: u32) -> PeerAddr {
    PeerAddr::V4 { ip: 0x7f000001, port: 9000 + n as u16 }
}

fn crc32(data: &[u8]) -> u32 {
    let mut v = CrcValidator::new();
    v.calculate(data)
}

#[test]
fn crc32_reference_vector() {
    assert_eq!(crc32(b"123456789"), 0xCBF43926);
    assert_eq!(crc32(b""), 0);
}

#[test]
fn crc_validator_adds_up_until_reset() {
    let mut v = CrcValidator::new();
    v.calculate(b"1234");
    assert_eq!(v.calculate(b"56789"), 0xCBF43926);
    v.reset();
    assert!(v.verify(b"123456789", 0xCBF43926));
}

#[test]
fn hello_roundtrip_bytes() {
    let frame = Frame::new(FrameType::Hello);
    let encoded = encode_frame(&frame).unwrap();
    assert_eq!(encoded.len(), 15);
    assert_eq!(&encoded[..11], &[0x56, 0x54, 0x01, 0x01, 0x00, 0, 0, 0, 0, 0, 0]);
    assert_eq!(&encoded[11..], &crc32(&encoded[..11]).to_be_bytes());
    let mut buf = BytesMut::from(&encoded[..]);
    assert_eq!(try_decode_frame(&mut buf, 1024).unwrap().unwrap(), frame);
    assert!(buf.is_empty());
}

#[test]
fn data_with_headers_layout() {
    let frame = Frame::new(FrameType::Data)
        .with_header("content-type", "application/json")
        .with_header("msg-id", "12345")
        .with_payload(b"{}".to_vec());
    let encoded = encode_frame(&frame).unwrap();
    assert_eq!(&encoded[5..7], &[43, 0]);
    assert_eq!(&encoded[7..11], &[0, 0, 0, 2]);
    assert_eq!(encoded.len(), 11 + 43 + 2 + 4);
    assert_eq!(&encoded[11..13], &[12, 16]);
    assert_eq!(&encoded[13..25], b"content-type");
    assert_eq!(frame_wire_len(&frame), Some(60));
    let mut buf = BytesMut::from(&encoded[..]);
    let decoded = try_decode_frame(&mut buf, 1024).unwrap().unwrap();
    assert_eq!(decoded, frame);
    assert_eq!(decoded.get_header("msg-id"), Some(&b"12345"[..]));
    assert_eq!(decoded.get_header("absent"), None);
}

#[test]
fn length_fields_keep_their_byte_order() {
    let mut frame = Frame::new(FrameType::Data).with_payload(vec![7u8; 0x0102_03]);
    for i in 0..3 {
        frame.headers.push(Header::new(vec![i; 100], vec![i; 200]));
    }
    let encoded = encode_frame(&frame).unwrap();
    assert_eq!(&encoded[5..7], &[0x8A, 0x03]);
    assert_eq!(&encoded[7..11], &[0x00, 0x01, 0x02, 0x03]);
    let mut buf = BytesMut::from(&encoded[..]);
    assert_eq!(try_decode_frame(&mut buf, 1 << 20).unwrap().unwrap(), frame);
}

#[test]
fn crc_corruption_is_reported_and_consumed() {
    let frame = Frame::new(FrameType::Data)
        .with_header("content-type", "application/json")
        .with_header("msg-id", "12345")
        .with_payload(b"{}".to_vec());
    let mut bytes = encode_frame(&frame).unwrap().to_vec();
    let n = bytes.len();
    let good = u32::from_be_bytes([bytes[n - 4], bytes[n - 3], bytes[n - 2], bytes[n - 1]]);
    bytes[n - 1] ^= 0x01;
    let mut buf = BytesMut::from(&bytes[..]);
    match try_decode_frame(&mut buf, 1024) {
        Err(VstpError::CrcMismatch { expected, got }) => {
            assert_eq!(got, good);
            assert_eq!(expected, good ^ 1);
        }
        other => panic!("unexpected {:?}", other),
    }
    assert!(buf.is_empty());
}

#[test]
fn every_single_bit_flip_is_caught() {
    let frame = Frame::new(FrameType::Data)
        .with_header("k", "v")
        .with_flag(Flags::REQ_ACK)
        .with_payload(b"payload".to_vec());
    let encoded = encode_frame(&frame).unwrap().to_vec();
    for bit in 0..encoded.len() * 8 {
        let mut damaged = encoded.clone();
        damaged[bit / 8] ^= 1 << (bit % 8);
        let mut buf = BytesMut::from(&damaged[..]);
        let result = try_decode_frame(&mut buf, 1 << 20);
        assert!(!matches!(result, Ok(Some(_))), "bit {} went through", bit);
    }
}

#[test]
fn decode_errors_by_kind() {
    let good = encode_frame(&Frame::new(FrameType::Ping)).unwrap().to_vec();

    let mut bad_magic = good.clone();
    bad_magic[0] = b'X';
    let mut buf = BytesMut::from(&bad_magic[..]);
    match try_decode_frame(&mut buf, 1024) {
        Err(e @ VstpError::InvalidMagic([b'X', 0x54])) => assert_eq!(e.kind(), ErrorKind::Protocol),
        other => panic!("unexpected {:?}", other),
    }
    assert_eq!(buf.len(), 15);

    let mut bad_version = good.clone();
    bad_version[2] = 9;
    let mut buf = BytesMut::from(&bad_version[..]);
    assert!(matches!(
        try_decode_frame(&mut buf, 1024),
        Err(VstpError::InvalidVersion { expected: 1, got: 9 })
    ));
    assert_eq!(buf.len(), 15);

    let mut buf = BytesMut::from(&good[..]);
    match try_decode_frame(&mut buf, 14) {
        Err(e @ VstpError::FrameTooLarge { size: 15, limit: 14 }) => {
            assert_eq!(e.kind(), ErrorKind::SizeLimit)
        }
        other => panic!("unexpected {:?}", other),
    }
    assert_eq!(buf.len(), 15);

    let mut body = good[..11].to_vec();
    body[3] = 0x09;
    let sum = crc32(&body);
    body.extend_from_slice(&sum.to_be_bytes());
    let mut buf = BytesMut::from(&body[..]);
    assert!(matches!(try_decode_frame(&mut buf, 1024), Err(VstpError::InvalidFrameType(9))));
    assert!(buf.is_empty());

    let mut body = vec![0x56, 0x54, 1, 3, 0, 3, 0, 0, 0, 0, 0, 5, 5, b'a'];
    let sum = crc32(&body);
    body.extend_from_slice(&sum.to_be_bytes());
    let mut buf = BytesMut::from(&body[..]);
    match try_decode_frame(&mut buf, 1024) {
        Err(VstpError::Protocol(text)) => assert_eq!(text, "Incomplete header"),
        other => panic!("unexpected {:?}", other),
    }
}

#[test]
fn undefined_flag_bits_survive() {
    let frame = Frame::new(FrameType::Data).with_flag(0xC4 | Flags::COMP);
    let encoded = encode_frame(&frame).unwrap();
    assert_eq!(encoded[4], 0xE4);
    let mut buf = BytesMut::from(&encoded[..]);
    let decoded = try_decode_frame(&mut buf, 1024).unwrap().unwrap();
    assert_eq!(decoded.flags.bits(), 0xE4);
    assert_eq!(decoded, frame);
}

#[test]
fn encode_errors_by_text() {
    let mut frame = Frame::new(FrameType::Data);
    frame.headers.push(Header::new(vec![1; 256], vec![]));
    assert!(matches!(encode_frame(&frame), Err(VstpError::Protocol(t)) if t == "Header key too long"));

    let mut frame = Frame::new(FrameType::Data);
    frame.headers.push(Header::new(vec![], vec![1; 256]));
    assert!(matches!(encode_frame(&frame), Err(VstpError::Protocol(t)) if t == "Header value too long"));

    let mut frame = Frame::new(FrameType::Data);
    for _ in 0..200 {
        frame.headers.push(Header::new(vec![1; 255], vec![2; 255]));
    }
    assert!(matches!(encode_frame(&frame), Err(VstpError::Protocol(t)) if t == "Header block too long"));
}

#[test]
fn tcp_split_delivery() {
    let frame = Frame::new(FrameType::Data).with_payload(vec![0xAB; 4000]);
    let encoded = encode_frame(&frame).unwrap();
    let mut framer = StreamFramer::new(8 * 1024 * 1024);
    let fed = framer.feed(&encoded[..7]);
    assert!(fed.frames.is_empty() && fed.error.is_none());
    let fed = framer.feed(&encoded[7..2500]);
    assert!(fed.frames.is_empty() && fed.error.is_none());
    assert_eq!(framer.buffered(), 2500);
    let fed = framer.feed(&encoded[2500..]);
    assert_eq!(fed.frames, vec![frame]);
    assert!(fed.error.is_none());
    assert_eq!(framer.buffered(), 0);
}

#[test]
fn several_frames_in_one_read() {
    let frames = vec![
        Frame::new(FrameType::Hello),
        Frame::new(FrameType::Data).with_header("a", "b").with_payload(b"one".to_vec()),
        Frame::new(FrameType::Bye),
    ];
    let mut framer = StreamFramer::new(1024);
    for f in &frames {
        framer.write(f.clone()).unwrap();
    }
    let mut wire = framer.take_outgoing().to_vec();
    assert!(framer.take_outgoing().is_empty());
    wire.extend_from_slice(&[0x56, 0x54, 0x01]);
    let fed = framer.feed(&wire);
    assert_eq!(fed.frames, frames);
    assert!(fed.error.is_none());
    assert_eq!(framer.buffered(), 3);
}

#[test]
fn stream_stops_at_the_first_bad_frame() {
    let mut wire = encode_frame(&Frame::new(FrameType::Ping)).unwrap().to_vec();
    wire.extend_from_slice(b"XX0123456789");
    let mut framer = StreamFramer::new(1024);
    let fed = framer.feed(&wire);
    assert_eq!(fed.frames, vec![Frame::new(FrameType::Ping)]);
    assert!(matches!(fed.error, Some(VstpError::InvalidMagic(_))));
}

#[test]
fn udp_fragmentation_in_reverse_order() {
    let frame = Frame::new(FrameType::Data)
        .with_header("content-type", "text/plain")
        .with_payload((0..5000u32).map(|i| (i % 251) as u8).collect());
    let encoded = encode_frame(&frame).unwrap();
    assert!(encoded.len() > 1200);
    let datagrams = plan_datagrams(&frame, 42, true).unwrap();
    assert_eq!(datagrams.len(), (encoded.len() + 1199) / 1200);
    assert_eq!(datagrams.len(), 5);

    for (i, d) in datagrams.iter().enumerate() {
        let mut buf = BytesMut::from(&d[..]);
        let carrier = try_decode_frame(&mut buf, 65536).unwrap().unwrap();
        assert_eq!(carrier.typ, FrameType::Data);
        assert!(carrier.flags.contains(Flags::FRAG));
        assert_eq!(carrier.get_header("frag-id"), Some(&b"42"[..]));
        assert_eq!(carrier.get_header("frag-index"), Some(format!("{}", i).as_bytes()));
        assert_eq!(carrier.get_header("frag-total"), Some(&b"5"[..]));
        let end = ((i + 1) * 1200).min(encoded.len());
        assert_eq!(carrier.payload, &encoded[i * 1200..end]);
    }

    let mut table = ReassemblyManager::new();
    let mut delivered = None;
    for (k, d) in datagrams.iter().rev().enumerate() {
        match process_datagram(&mut table, &d[..], peer(1), 10 + k as u64) {
            DatagramOutcome::Pending => assert!(k < 4),
            DatagramOutcome::Delivered { frame, ack } => {
                assert_eq!(k, 4);
                assert!(ack.is_none());
                delivered = Some(frame);
            }
            other => panic!("unexpected {:?}", other),
        }
    }
    assert_eq!(table.session_count(), 0);
    let delivered = delivered.unwrap();
    assert_eq!(delivered.get_header("frag-id"), None);
    assert_eq!(delivered.get_header("frag-index"), None);
    assert_eq!(delivered.get_header("frag-total"), None);
    assert_eq!(delivered.headers, frame.headers);
    assert_eq!(delivered.typ, frame.typ);
    assert_eq!(delivered.payload, &encoded[..]);
    let mut buf = BytesMut::from(&delivered.payload[..]);
    assert_eq!(try_decode_frame(&mut buf, 65536).unwrap().unwrap(), frame);
}

#[test]
fn small_frames_travel_in_one_datagram() {
    let frame = Frame::new(FrameType::Data).with_payload(vec![1; 1185]);
    let datagrams = plan_datagrams(&frame, 0, false).unwrap();
    assert_eq!(datagrams.len(), 1);
    assert_eq!(datagrams[0], encode_frame(&frame).unwrap());
    assert_eq!(datagrams[0].len(), 1200);
}

#[test]
fn oversize_frames_need_fragmentation() {
    let frame = Frame::new(FrameType::Data).with_payload(vec![1; 1186]);
    assert!(matches!(
        plan_datagrams(&frame, 0, false),
        Err(VstpError::Protocol(t)) if t == "Frame too large for one datagram"
    ));
    assert_eq!(plan_datagrams(&frame, 0, true).unwrap().len(), 2);

    let huge = Frame::new(FrameType::Data).with_payload(vec![1; 255 * 1200]);
    assert!(matches!(
        plan_datagrams(&huge, 0, true),
        Err(VstpError::Protocol(t)) if t == "Payload too large"
    ));
    let most = Frame::new(FrameType::Data).with_payload(vec![1; 255 * 1200 - 15]);
    assert_eq!(plan_datagrams(&most, 0, true).unwrap().len(), 255);
}

#[test]
fn fragment_payload_cuts_at_1200() {
    assert!(fragment_payload(&[0u8; 1200], 1).unwrap().is_empty());
    let data: Vec<u8> = (0..2500u32).map(|i| i as u8).collect();
    let frags = fragment_payload(&data, 9).unwrap();
    assert_eq!(frags.len(), 3);
    assert_eq!(frags[0].data, &data[..1200]);
    assert_eq!(frags[1].data, &data[1200..2400]);
    assert_eq!(frags[2].data, &data[2400..]);
    for (i, f) in frags.iter().enumerate() {
        assert_eq!((f.frag_id, f.frag_index as usize, f.frag_total), (9, i, 3));
    }
    assert!(fragment_payload(&vec![0u8; 255 * 1200 + 1], 1).is_err());
}

#[test]
fn fragment_headers_roundtrip() {
    let fragment = Fragment { frag_id: 200, frag_index: 7, frag_total: 255, data: vec![1, 2, 3] };
    let mut frame = Frame::new(FrameType::Data).with_payload(vec![1, 2, 3]);
    assert!(extract_fragment_info(&frame).is_none());
    add_fragment_headers(&mut frame, &fragment);
    assert_eq!(frame.headers.len(), 3);
    assert_eq!(frame.get_header("frag-index"), Some(&b"7"[..]));
    let back = extract_fragment_info(&frame).unwrap();
    assert_eq!((back.frag_id, back.frag_index, back.frag_total), (200, 7, 255));
    assert_eq!(back.data, vec![1, 2, 3]);

    let bad = Frame::new(FrameType::Data)
        .with_header("frag-id", "256")
        .with_header("frag-index", "0")
        .with_header("frag-total", "1");
    assert!(extract_fragment_info(&bad).is_none());
    let carrier = reassemble_frame(&frame.clone().with_header("x", "y"), vec![9]);
    assert_eq!(carrier.headers, vec![Header::from_str("x", "y")]);
    assert_eq!(carrier.payload, vec![9]);
}

#[test]
fn decimal_text() {
    assert_eq!(format_decimal(0), b"0");
    assert_eq!(format_decimal(u64::MAX), b"18446744073709551615");
    assert_eq!(parse_decimal(b"18446744073709551615", u64::MAX), Some(u64::MAX));
    assert_eq!(parse_decimal(b"18446744073709551616", u64::MAX), None);
    assert_eq!(parse_decimal(b"007", 255), Some(7));
    assert_eq!(parse_decimal(b"+7", 255), Some(7));
    assert_eq!(parse_decimal(b"255", 255), Some(255));
    assert_eq!(parse_decimal(b"256", 255), None);
    assert_eq!(parse_decimal(b"", 255), None);
    assert_eq!(parse_decimal(b"+", 255), None);
    assert_eq!(parse_decimal(b"-1", 255), None);
    assert_eq!(parse_decimal(b"1a", 255), None);
}

fn frag(id: u8, index: u8, total: u8, byte: u8) -> Fragment {
    Fragment { frag_id: id, frag_index: index, frag_total: total, data: vec![byte; 3] }
}

#[test]
fn reassembly_in_every_order() {
    let orders = [[0u8, 1, 2], [0, 2, 1], [1, 0, 2], [1, 2, 0], [2, 0, 1], [2, 1, 0]];
    for order in orders {
        let mut table = ReassemblyManager::new();
        assert_eq!(table.add_fragment_at(peer(1), frag(5, order[0], 3, order[0]), 0).unwrap(), None);
        assert_eq!(table.add_fragment_at(peer(1), frag(5, order[1], 3, order[1]), 1).unwrap(), None);
        assert_eq!(table.session_count(), 1);
        let whole = table.add_fragment_at(peer(1), frag(5, order[2], 3, order[2]), 2).unwrap();
        assert_eq!(whole, Some(vec![0, 0, 0, 1, 1, 1, 2, 2, 2]));
        assert_eq!(table.session_count(), 0);
    }
}

#[test]
fn interleaved_messages_do_not_mix() {
    let mut table = ReassemblyManager::new();
    assert_eq!(table.add_fragment_at(peer(1), frag(5, 0, 2, 1), 0).unwrap(), None);
    assert_eq!(table.add_fragment_at(peer(2), frag(5, 1, 2, 4), 0).unwrap(), None);
    assert_eq!(table.add_fragment_at(peer(1), frag(6, 1, 2, 6), 0).unwrap(), None);
    assert_eq!(
        table.add_fragment_at(peer(2), frag(5, 0, 2, 3), 0).unwrap(),
        Some(vec![3, 3, 3, 4, 4, 4])
    );
    assert_eq!(
        table.add_fragment_at(peer(1), frag(5, 1, 2, 2), 0).unwrap(),
        Some(vec![1, 1, 1, 2, 2, 2])
    );
    assert_eq!(table.session_count(), 1);
}

#[test]
fn duplicate_fragment_is_refused() {
    let mut table = ReassemblyManager::new();
    assert_eq!(table.add_fragment_at(peer(1), frag(5, 0, 2, 1), 0).unwrap(), None);
    match table.add_fragment_at(peer(1), frag(5, 0, 2, 9), 1) {
        Err(VstpError::Protocol(t)) => assert_eq!(t, "Duplicate fragment"),
        other => panic!("unexpected {:?}", other),
    }
    assert_eq!(table.session_count(), 1);
    assert_eq!(
        table.add_fragment_at(peer(1), frag(5, 1, 2, 2), 2).unwrap(),
        Some(vec![1, 1, 1, 2, 2, 2])
    );
}

#[test]
fn reassembly_refusals() {
    let mut table = ReassemblyManager::new();
    assert!(matches!(
        table.add_fragment_at(peer(1), frag(1, 0, 0, 0), 0),
        Err(VstpError::Protocol(t)) if t == "Invalid fragment total"
    ));
    assert_eq!(table.session_count(), 0);
    assert!(matches!(
        table.add_fragment_at(peer(1), frag(1, 2, 2, 0), 0),
        Err(VstpError::Protocol(t)) if t == "Invalid fragment index"
    ));
    assert_eq!(table.session_count(), 1);
    assert!(matches!(
        table.add_fragment_at(peer(1), frag(1, 0, 3, 0), 0),
        Err(VstpError::Protocol(t)) if t == "Inconsistent fragmentation"
    ));
    assert_eq!(table.add_fragment_at(peer(1), frag(1, 0, 2, 0), 0).unwrap(), None);
}

#[test]
fn reassembly_capacity() {
    let mut table = ReassemblyManager::with_limits(2, 30_000);
    assert_eq!(table.add_fragment_at(peer(1), frag(1, 0, 2, 1), 0).unwrap(), None);
    assert_eq!(table.add_fragment_at(peer(2), frag(1, 0, 2, 3), 0).unwrap(), None);
    match table.add_fragment_at(peer(3), frag(1, 0, 2, 5), 0) {
        Err(e @ VstpError::TooManySessions { limit: 2 }) => assert_eq!(e.kind(), ErrorKind::SizeLimit),
        other => panic!("unexpected {:?}", other),
    }
    assert_eq!(table.session_count(), 2);
    assert_eq!(
        table.add_fragment_at(peer(1), frag(1, 1, 2, 2), 0).unwrap(),
        Some(vec![1, 1, 1, 2, 2, 2])
    );
    assert_eq!(
        table.add_fragment_at(peer(2), frag(1, 1, 2, 4), 0).unwrap(),
        Some(vec![3, 3, 3, 4, 4, 4])
    );
}

#[test]
fn more_than_the_limit_fails() {
    let mut table = ReassemblyManager::new();
    for i in 0..1000u32 {
        let p = PeerAddr::V4 { ip: i, port: 1 };
        assert_eq!(table.add_fragment_at(p, frag(1, 0, 2, 1), 0).unwrap(), None);
    }
    assert!(matches!(
        table.add_fragment_at(PeerAddr::V4 { ip: 5000, port: 1 }, frag(1, 0, 2, 1), 30_000),
        Err(VstpError::TooManySessions { limit: 1000 })
    ));
    assert_eq!(table.session_count(), 1000);
    assert_eq!(
        table.add_fragment_at(PeerAddr::V4 { ip: 5000, port: 1 }, frag(1, 0, 2, 1), 30_001).unwrap(),
        None
    );
    assert_eq!(table.session_count(), 1);
}

#[test]
fn stale_entries_expire_on_the_next_insert() {
    let mut table = ReassemblyManager::with_limits(10, 100);
    assert_eq!(table.add_fragment_at(peer(1), frag(1, 0, 2, 1), 50).unwrap(), None);
    assert_eq!(table.add_fragment_at(peer(2), frag(1, 0, 2, 1), 150).unwrap(), None);
    assert_eq!(table.session_count(), 2);
    assert_eq!(table.add_fragment_at(peer(1), frag(1, 1, 2, 2), 151).unwrap(), None);
    assert_eq!(table.session_count(), 2);
    table.cleanup_expired(251);
    assert_eq!(table.session_count(), 1);
    assert_eq!(table.find(peer(1), 1), 0);
    assert_eq!(table.find(peer(2), 1), 1);
}

#[test]
fn the_clock_runs_for_add_fragment() {
    let mut table = ReassemblyManager::new();
    assert_eq!(table.add_fragment(peer(1), frag(1, 0, 2, 1)).unwrap(), None);
    assert_eq!(
        table.add_fragment(peer(1), frag(1, 1, 2, 2)).unwrap(),
        Some(vec![1, 1, 1, 2, 2, 2])
    );
    assert!(table.now_ms() < 30_000);
}

#[test]
fn datagrams_without_a_frame_are_ignored() {
    let mut table = ReassemblyManager::new();
    assert!(matches!(process_datagram(&mut table, b"garbage-garbage", peer(1), 0), DatagramOutcome::Ignored));
    assert!(matches!(process_datagram(&mut table, &[0x56, 0x54], peer(1), 0), DatagramOutcome::Ignored));
    let mut wire = encode_frame(&Frame::new(FrameType::Ping)).unwrap().to_vec();
    wire.extend_from_slice(b"trailing");
    match process_datagram(&mut table, &wire, peer(1), 0) {
        DatagramOutcome::Delivered { frame, ack } => {
            assert_eq!(frame, Frame::new(FrameType::Ping));
            assert!(ack.is_none());
        }
        other => panic!("unexpected {:?}", other),
    }
    let dup = Frame::new(FrameType::Data)
        .with_header("frag-id", "1")
        .with_header("frag-index", "0")
        .with_header("frag-total", "2");
    let wire = encode_frame(&dup).unwrap();
    assert!(matches!(process_datagram(&mut table, &wire, peer(1), 0), DatagramOutcome::Pending));
    assert!(matches!(
        process_datagram(&mut table, &wire, peer(1), 0),
        DatagramOutcome::Failed(VstpError::Protocol(_))
    ));
}

#[test]
fn acknowledgement_echoes_the_message_id() {
    let frame = with_msg_id(Frame::new(FrameType::Data), 12345);
    assert!(frame.flags.contains(Flags::REQ_ACK));
    assert_eq!(frame.get_header("msg-id"), Some(&b"12345"[..]));
    assert_eq!(extract_msg_id(&frame), Some(12345));
    let ack = ack_for(&frame).unwrap();
    assert_eq!(ack.typ, FrameType::Ack);
    assert_eq!(ack.headers, vec![Header::from_str("msg-id", "12345")]);
    assert!(ack.payload.is_empty());
    assert!(ack_for(&Frame::new(FrameType::Data).with_header("msg-id", "1")).is_none());
    assert!(ack_for(&Frame::new(FrameType::Data).with_flag(Flags::REQ_ACK)).is_none());
    let wire = encode_frame(&frame).unwrap();
    let mut table = ReassemblyManager::new();
    match process_datagram(&mut table, &wire, peer(1), 0) {
        DatagramOutcome::Delivered { ack: Some(a), .. } => assert_eq!(a, ack),
        other => panic!("unexpected {:?}", other),
    }
}

#[test]
fn ack_mismatch_is_ignored() {
    let ack6 = Frame::new(FrameType::Ack).with_header("msg-id", "6");
    let ack7 = Frame::new(FrameType::Ack).with_header("msg-id", "7");
    let data7 = Frame::new(FrameType::Data).with_header("msg-id", "7");
    assert!(!is_matching_ack(&ack6, peer(1), peer(1), 7));
    assert!(is_matching_ack(&ack7, peer(1), peer(1), 7));
    assert!(!is_matching_ack(&ack7, peer(2), peer(1), 7));
    assert!(!is_matching_ack(&data7, peer(1), peer(1), 7));
    assert!(!is_matching_ack(&Frame::new(FrameType::Ack), peer(1), peer(1), 7));
}

#[test]
fn retry_schedule() {
    let config = UdpConfig { ack_timeout: 200, ..UdpConfig::default() };
    assert_eq!((config.max_retries, config.retry_delay, config.max_retry_delay), (3, 100, 5000));
    let mut state = UdpSendState::new(config);
    assert_eq!(state.fragment_id(), 1);
    let (frame, mut delivery) = state.begin_reliable(Frame::new(FrameType::Data), peer(1));
    assert_eq!(state.next_msg_id, 2);
    assert_eq!(extract_msg_id(&frame), Some(1));
    assert!(delivery.accepts(&Frame::new(FrameType::Ack).with_header("msg-id", "1"), peer(1)));
    let mut paused = 0;
    for expected in [100, 200] {
        match delivery.attempt_done(false) {
            SendAction::Retry { delay_ms } => {
                assert_eq!(delay_ms, expected);
                paused += delay_ms;
            }
            other => panic!("unexpected {:?}", other),
        }
    }
    assert_eq!(delivery.attempt_done(true), SendAction::Finished);
    assert_eq!(delivery.phase, SendPhase::Delivered);
    assert!(paused >= 100 + 2 * 100);
    assert_eq!(delivery.attempt_done(false), SendAction::Finished);
}

#[test]
fn all_attempts_lost_is_a_timeout() {
    let mut delivery = ReliableSend::start(7, peer(1), &UdpConfig::default());
    assert_eq!(delivery.attempt_done(false), SendAction::Retry { delay_ms: 100 });
    assert_eq!(delivery.attempt_done(false), SendAction::Retry { delay_ms: 200 });
    assert_eq!(delivery.attempt_done(false), SendAction::Retry { delay_ms: 400 });
    assert_eq!(delivery.attempt_done(false), SendAction::Failed);
    assert_eq!(delivery.phase, SendPhase::TimedOut);
    assert_eq!(delivery.attempt_done(true), SendAction::Failed);
    assert_eq!(VstpError::Timeout.kind(), ErrorKind::Timeout);
}

#[test]
fn retry_delay_doubles_up_to_the_cap() {
    assert_eq!(calculate_retry_delay(100, 5000, 0), 100);
    assert_eq!(calculate_retry_delay(100, 5000, 5), 3200);
    assert_eq!(calculate_retry_delay(100, 5000, 6), 5000);
    assert_eq!(calculate_retry_delay(100, 5000, 200), 5000);
    assert_eq!(calculate_retry_delay(0, 5000, 9), 0);
    assert_eq!(calculate_retry_delay(9, 5, 0), 5);
    let server = UdpServerConfig::default();
    assert!(server.use_crc && server.allow_frag);
    assert_eq!(server.max_reassembly_sessions, 1000);
}

#[test]
fn session_ids_start_at_two() {
    let mut ids = SessionIds::new();
    assert_eq!(ids.allocate(), Some(2));
    assert_eq!(ids.allocate(), Some(3));
    let mut last = SessionIds { last: u128::MAX };
    assert_eq!(last.allocate(), None);
    assert_eq!(udp_session_id(peer(1)), udp_session_id(peer(1)));
    assert_ne!(udp_session_id(peer(1)), udp_session_id(peer(2)));
    assert_eq!(udp_session_id(PeerAddr::V4 { ip: 1, port: 2 }), (1 << 48) + (1 << 16) + 2);
}

#[test]
fn observer_veto_ends_the_session() {
    let mut conn = TcpConnection::new(2, peer(1));
    assert_eq!((conn.session_id(), conn.peer_addr(), conn.state()), (2, peer(1), ConnState::Open));
    let wire = encode_frame(&data_frame(b"x".to_vec())).unwrap();
    let fed = conn.on_bytes(&wire).unwrap();
    assert_eq!(fed.frames.len(), 1);
    assert!(conn.on_verdict(Verdict::Allow));
    let fed = conn.on_bytes(&wire).unwrap();
    assert_eq!(fed.frames.len(), 1);
    assert!(!conn.on_verdict(Verdict::Veto));
    assert_eq!(conn.state(), ConnState::Vetoed);
    assert!(!conn.on_verdict(Verdict::Allow));
    match conn.on_bytes(&wire) {
        Err(e @ VstpError::SessionTerminated) => assert_eq!(e.kind(), ErrorKind::Closed),
        other => panic!("unexpected {:?}", other),
    }
    conn.close();
    assert_eq!(conn.state(), ConnState::Vetoed);
}

#[test]
fn decode_failure_ends_the_connection() {
    let mut conn = TcpConnection::new(3, peer(1));
    let mut wire = encode_frame(&hello_frame()).unwrap().to_vec();
    wire.extend_from_slice(&[0u8; 11]);
    let fed = conn.on_bytes(&wire).unwrap();
    assert_eq!(fed.frames, vec![Frame::new(FrameType::Hello)]);
    assert!(fed.error.is_some());
    assert_eq!(conn.state(), ConnState::Failed);
    assert!(matches!(conn.on_bytes(b""), Err(VstpError::ConnectionClosed)));

    let mut conn = TcpConnection::new(4, peer(1));
    conn.close();
    assert_eq!(conn.state(), ConnState::Closed);
    assert!(matches!(conn.on_bytes(b""), Err(VstpError::ConnectionClosed)));
    assert_eq!(bye_frame().typ, FrameType::Bye);
}

#[test]
fn block_list_is_a_set() {
    let mut list = BlockList::new();
    assert!(!list.is_blocked(7));
    assert!(list.block(7));
    assert!(!list.block(7));
    assert!(list.block(8));
    assert!(list.is_blocked(7) && list.is_blocked(8));
    list.unblock(7);
    assert!(!list.is_blocked(7) && list.is_blocked(8));
    list.unblock(7);
    assert!(list.is_blocked(8));
}

#[test]
fn error_counters_count_by_kind() {
    let mut counters = ErrorCounters::new();
    counters.record_error(ErrorType::Crc);
    counters.record_error(ErrorType::Crc);
    counters.record_error(ErrorType::Protocol);
    counters.record_error(ErrorType::SuspiciousFlag);
    assert_eq!((counters.crc_errors, counters.protocol_errors, counters.suspicious_flags), (2, 1, 1));
    assert_eq!(counters.serious_errors(), 3);
    let mut full = ErrorCounters { crc_errors: u64::MAX, protocol_errors: 1, suspicious_flags: 0 };
    full.record_error(ErrorType::Crc);
    assert_eq!(full.crc_errors, u64::MAX);
    assert_eq!(full.serious_errors(), u64::MAX);
}
