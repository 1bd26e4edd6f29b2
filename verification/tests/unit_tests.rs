use bytes::BytesMut;
use vstp::binary::{decode_string, encode_string};
use vstp::compression::{compress, decompress, CompressionConfig};
use vstp::encoding::{decode_varint, encode_varint, varint_len, MAX_VARINT_LEN};
use vstp::{
    encode_frame, try_decode_frame, CrcValidator, Flags, Frame, FrameBuilder, FrameExt,
    FrameType, FrameTypeExt, VstpFrameCodec,
};

#[test]
fn test_codec_roundtrip() {
    let mut codec = VstpFrameCodec::default();
    let mut buf = BytesMut::new();

    let frame = Frame::new(FrameType::Data)
        .with_header("test", "value")
        .with_payload(b"hello".to_vec());

    codec.encode(frame.clone(), &mut buf).unwrap();

    let decoded = codec.decode(&mut buf).unwrap().unwrap();

    assert_eq!(frame, decoded);
}

#[test]
fn test_codec_partial_decode() {
    let mut codec = VstpFrameCodec::default();
    let mut buf = BytesMut::new();

    let frame = Frame::new(FrameType::Hello);
    let encoded = encode_frame(&frame).unwrap();

    buf.extend_from_slice(&encoded[..5]);
    let result = codec.decode(&mut buf).unwrap();
    assert!(result.is_none());

    buf.extend_from_slice(&encoded[5..]);
    let decoded = codec.decode(&mut buf).unwrap().unwrap();
    assert_eq!(frame, decoded);
}

#[test]
fn test_string_roundtrip() {
    let test_cases = vec![
        "",
        "Hello",
        "Hello, World!",
        "🦀 Rust",
        "Unicode: 你好, こんにちは",
    ];

    for test_str in test_cases {
        let encoded = encode_string(test_str);
        let (decoded, bytes_read) = decode_string(&encoded).unwrap();
        assert_eq!(test_str, decoded);
        assert_eq!(bytes_read, encoded.len());
    }
}

#[test]
fn test_string_errors() {
    let incomplete = vec![0x80];
    assert!(decode_string(&incomplete).is_err());

    let incomplete = vec![0x05, 0x00, b'H', b'e', b'l'];
    assert!(decode_string(&incomplete).is_err());

    let invalid = vec![0x01, 0x00, 0xFF];
    assert!(decode_string(&invalid).is_err());
}

#[test]
fn test_builder_basic() {
    let frame = FrameBuilder::new(FrameType::Data)
        .header("content-type", "text/plain")
        .payload(b"Hello".to_vec())
        .build();

    assert_eq!(frame.typ, FrameType::Data);
    assert_eq!(frame.headers.len(), 1);
    assert_eq!(frame.payload, b"Hello");
}

#[test]
fn test_builder_with_flags() {
    let frame = FrameBuilder::new(FrameType::Data)
        .flag(Flags::REQ_ACK)
        .flag(Flags::CRC)
        .build();

    assert!(frame.flags.contains(Flags::REQ_ACK));
    assert!(frame.flags.contains(Flags::CRC));
}

#[test]
fn test_builder_binary_headers() {
    let frame = FrameBuilder::new(FrameType::Data)
        .binary_header(vec![1, 2, 3], vec![4, 5, 6])
        .build();

    assert_eq!(frame.headers[0].key, vec![1, 2, 3]);
    assert_eq!(frame.headers[0].value, vec![4, 5, 6]);
}

#[test]
fn test_basic_roundtrip() {
    let frame = Frame::new(FrameType::Hello);
    let encoded = encode_frame(&frame).unwrap();
    let mut buf = BytesMut::from(&encoded[..]);
    let decoded = try_decode_frame(&mut buf, 1024).unwrap().unwrap();

    assert_eq!(frame, decoded);
}

#[test]
fn parser_test_frame_with_headers() {
    let frame = Frame::new(FrameType::Data)
        .with_header("content-type", "application/json")
        .with_header("msg-id", "12345");

    let encoded = encode_frame(&frame).unwrap();
    let mut buf = BytesMut::from(&encoded[..]);
    let decoded = try_decode_frame(&mut buf, 1024).unwrap().unwrap();

    assert_eq!(frame, decoded);
}

#[test]
fn parser_test_frame_with_payload() {
    let payload = b"This is a test payload with some data".to_vec();
    let frame = Frame::new(FrameType::Data).with_payload(payload);

    let encoded = encode_frame(&frame).unwrap();
    let mut buf = BytesMut::from(&encoded[..]);
    let decoded = try_decode_frame(&mut buf, 1024).unwrap().unwrap();

    assert_eq!(frame, decoded);
}

#[test]
fn test_frame_type_control() {
    assert!(FrameType::Hello.is_control());
    assert!(FrameType::Ping.is_control());
    assert!(!FrameType::Data.is_control());
}

#[test]
fn test_frame_type_ack() {
    assert!(FrameType::Hello.requires_ack());
    assert!(FrameType::Data.requires_ack());
    assert!(!FrameType::Ping.requires_ack());
}

#[test]
fn test_frame_type_priority() {
    assert!(FrameType::Error.priority() > FrameType::Data.priority());
    assert!(FrameType::Ack.priority() > FrameType::Ping.priority());
    assert_eq!(FrameType::Hello.priority(), FrameType::Welcome.priority());
}

#[test]
fn test_frame_extensions() {
    let frame = Frame::new(FrameType::Data);
    assert!(!frame.is_control());
    assert!(frame.requires_ack());
    assert_eq!(frame.priority(), 50);

    let frame = Frame::new(FrameType::Error);
    assert!(frame.is_control());
    assert!(!frame.requires_ack());
    assert_eq!(frame.priority(), 255);
}

#[test]
fn test_varint_small_numbers() {
    let test_cases = vec![0, 1, 127, 128, 255, 256];

    for value in test_cases {
        let encoded = encode_varint(value);
        let (decoded, bytes_read) = decode_varint(&encoded).unwrap();
        assert_eq!(value, decoded);
        assert_eq!(bytes_read, encoded.len());
        assert_eq!(bytes_read, varint_len(value));
    }
}

#[test]
fn test_varint_large_numbers() {
    let test_cases = vec![u64::MAX, u64::MAX / 2, 1 << 32, (1 << 32) - 1];

    for value in test_cases {
        let encoded = encode_varint(value);
        let (decoded, bytes_read) = decode_varint(&encoded).unwrap();
        assert_eq!(value, decoded);
        assert_eq!(bytes_read, encoded.len());
        assert_eq!(bytes_read, varint_len(value));
    }
}

#[test]
fn test_varint_error_cases() {
    let incomplete = vec![0x80];
    assert!(decode_varint(&incomplete).is_err());

    let overflow = vec![0x80; MAX_VARINT_LEN + 1];
    assert!(decode_varint(&overflow).is_err());
}

#[test]
fn test_varint_encoding_efficiency() {
    assert_eq!(encode_varint(0).len(), 1);
    assert_eq!(encode_varint(127).len(), 1);
    assert_eq!(encode_varint(128).len(), 2);
    assert_eq!(encode_varint(16383).len(), 2);
    assert_eq!(encode_varint(16384).len(), 3);
}

#[test]
fn test_compression_config() {
    let config = CompressionConfig::new()
        .min_size(2048)
        .level(9)
        .compress_headers(true);

    assert_eq!(config.min_size, 2048);
    assert_eq!(config.level, 9);
    assert!(config.compress_headers);
}

#[test]
fn test_compression_roundtrip() {
    let config = CompressionConfig::new();
    let data = vec![0u8; 2048];
    let compressed = compress(&data, &config).unwrap();
    let decompressed = decompress(&compressed).unwrap();
    assert_eq!(data, decompressed);
}

#[test]
fn test_small_data_no_compression() {
    let config = CompressionConfig::new();
    let data = vec![0u8; 512];
    let result = compress(&data, &config).unwrap();
    assert_eq!(data, result);
}

#[test]
fn test_crc_calculation() {
    let mut validator = CrcValidator::new();
    let data = b"Hello, World!";
    let crc1 = validator.calculate(data);
    validator.reset();
    let crc2 = validator.calculate(data);
    assert_eq!(crc1, crc2);
}

#[test]
fn test_crc_verification() {
    let mut validator = CrcValidator::new();
    let data = b"Hello, World!";
    let crc = validator.calculate(data);
    validator.reset();
    assert!(validator.verify(data, crc));
}

#[test]
fn test_crc_mismatch() {
    let mut validator = CrcValidator::new();
    let data = b"Hello, World!";
    let crc = validator.calculate(data);
    validator.reset();
    assert!(!validator.verify(b"Hello, world!", crc));
}
