use rtmp::amf::Value;
use rtmp::chunk::Chunk;
use rtmp::chunk::FramingError;
use rtmp::message::Message;
use rtmp::message::MessageCommand;
use rtmp::message::MessageData;
use rtmp::signal::Signal;
use rtmp::util::bytes_from_hex_string;

fn object_from_entries(entries: Vec<(&str, Value)>) -> Value {
    let mut obj = Value::Object(Vec::new());
    for (key, val) in entries {
        obj.object_insert(key.to_string(), val);
    }
    obj
}

#[test]
fn can_write_connect_message() {
    let properties = object_from_entries(vec![
        ("app", Value::Utf8("vod/media".to_string())),
        ("flashVer", Value::Utf8("MAC 10,0,32,18".to_string())),
        ("objectEncoding", Value::Number(0.0f64.to_bits())),
        ("tcUrl", Value::Utf8("rtmp://example.com/something".to_string())),
    ]);
    let cmd = Message {
        stream_id: 0,
        data: MessageData::Command(MessageCommand {
            name: "connect".to_string(),
            id: 1.0f64.to_bits(),
            data: properties,
            opt: Vec::new(),
        }),
    };
    let mut buf = Vec::new();
    Chunk::write(&mut buf, &Chunk::Msg(cmd), 128).expect("write");
    // A format 0 header on chunk stream 3, message type 0x14, stream id 0.
    assert_eq!(buf[0], 0x03);
    assert_eq!(buf[7], 0x14);
    assert_eq!(&buf[8..12], &[0, 0, 0, 0]);
}

#[test]
fn can_read_chunk_set_window_ack_size() {
    let bytes = bytes_from_hex_string("02 00 00 00 00 00 04 05 00 00 00 00 00 26 25 a0");
    let (chunk, num_bytes) = Chunk::read(&bytes, 0, 128).expect("read");
    assert_eq!(chunk, Chunk::Control(Signal::SetWindowAckSize(2500000)));
    assert_eq!(num_bytes, 16);
}

#[test]
fn can_read_chunk_set_peer_bandwidth() {
    let bytes = bytes_from_hex_string("02 00 00 00 00 00 05 06 00 00 00 00 00 26 25 a0 02");
    let (chunk, num_bytes) = Chunk::read(&bytes, 0, 128).expect("read");
    assert_eq!(chunk, Chunk::Control(Signal::SetPeerBandwidth(2500000, 2)));
    assert_eq!(num_bytes, 17);
}

#[test]
fn chunk_round_trip_single_chunk() {
    let make = || Message {
        stream_id: 1,
        data: MessageData::Command(MessageCommand {
            name: "publish".to_string(),
            id: 0.0f64.to_bits(),
            data: Value::Null,
            opt: vec![
                Value::Utf8("cameraFeed".to_string()),
                Value::Utf8("live".to_string()),
            ],
        }),
    };
    let mut buf = Vec::new();
    Chunk::write(&mut buf, &Chunk::Msg(make()), 1024).expect("write");
    let (chunk, consumed) = Chunk::read(&buf, 0, 1024).expect("read");
    assert_eq!(chunk, Chunk::Msg(make()));
    assert_eq!(consumed, buf.len());
}

#[test]
fn chunk_round_trip_with_continuation_headers() {
    // A small chunk size forces the payload to split across continuation
    // chunks; reassembly must undo the split exactly.
    let make = || Message {
        stream_id: 7,
        data: MessageData::Command(MessageCommand {
            name: "publish".to_string(),
            id: 0.0f64.to_bits(),
            data: Value::Null,
            opt: vec![Value::Utf8("a somewhat longer stream name".to_string())],
        }),
    };
    let mut buf = Vec::new();
    Chunk::write(&mut buf, &Chunk::Msg(make()), 8).expect("write");
    // The payload is longer than one 8-byte chunk, so continuation header
    // bytes (format 3, chunk stream id 4) must appear.
    assert!(buf.len() > 12 + 8);
    assert_eq!(buf[12 + 8], 0xC0 | 4);
    let (chunk, consumed) = Chunk::read(&buf, 0, 8).expect("read");
    assert_eq!(chunk, Chunk::Msg(make()));
    assert_eq!(consumed, buf.len());
}

#[test]
fn length_field_mismatch_is_truncated() {
    // The header promises 5 payload bytes; only 3 follow.
    let bytes = bytes_from_hex_string("02 00 00 00 00 00 05 06 00 00 00 00 00 26 25");
    let err = Chunk::read(&bytes, 0, 128).expect_err("short payload");
    assert_eq!(err, FramingError::Truncated);
}

#[test]
fn nonzero_format_is_unsupported() {
    let bytes = bytes_from_hex_string("42 00 00 00 00 00 00 14 00 00 00 00");
    let err = Chunk::read(&bytes, 0, 128).expect_err("format 1");
    assert_eq!(err, FramingError::UnsupportedFormat { format: 1 });
}

#[test]
fn unimplemented_message_type_is_refused() {
    // Message type 9 (video) with an empty payload.
    let bytes = bytes_from_hex_string("02 00 00 00 00 00 00 09 00 00 00 00");
    let err = Chunk::read(&bytes, 0, 128).expect_err("video");
    assert_eq!(err, FramingError::Unimplemented { message_type: 9 });
}
