use rtmp::signal::Event;
use rtmp::signal::Signal;
use rtmp::signal::SignalError;
use rtmp::signal::SignalType;
use rtmp::util::bytes_from_hex_string;

#[test]
fn can_read_abort() {
    let bytes = bytes_from_hex_string("00 00 00 01");
    let chunk = Signal::read(&bytes, SignalType::Abort.as_u8()).expect("read");
    assert_eq!(chunk, Signal::Abort(1));
}

#[test]
fn can_read_set_chunk_size() {
    let bytes = bytes_from_hex_string("00 00 00 ff");
    let chunk = Signal::read(&bytes, SignalType::SetChunkSize.as_u8()).expect("read");
    assert_eq!(chunk, Signal::SetChunkSize(255));
}

#[test]
fn can_read_ack_chunk() {
    let bytes = bytes_from_hex_string("00 26 25 a0");
    let chunk = Signal::read(&bytes, SignalType::AckChunk.as_u8()).expect("read");
    assert_eq!(chunk, Signal::AckChunk(2500000));
}

#[test]
fn can_read_user_control_message() {
    let bytes = bytes_from_hex_string("00 00 01 00 00 00");
    let chunk = Signal::read(&bytes, SignalType::UserControlMessage.as_u8()).expect("read");
    assert_eq!(chunk, Signal::UserControlMessage(Event::StreamBegin(1)));
}

#[test]
fn can_read_set_window_ack_size() {
    let bytes = bytes_from_hex_string("00 26 25 a0");
    let chunk = Signal::read(&bytes, SignalType::SetWindowAckSize.as_u8()).expect("read");
    assert_eq!(chunk, Signal::SetWindowAckSize(2500000));
}

#[test]
fn can_read_set_peer_bandwidth() {
    let bytes = bytes_from_hex_string("00 26 25 a0 02");
    let chunk = Signal::read(&bytes, SignalType::SetPeerBandwidth.as_u8()).expect("read");
    assert_eq!(chunk, Signal::SetPeerBandwidth(2500000, 2));
}

#[test]
fn set_chunk_size_ignores_high_bit() {
    let bytes = bytes_from_hex_string("80 00 00 ff");
    let chunk = Signal::read(&bytes, SignalType::SetChunkSize.as_u8()).expect("read");
    assert_eq!(chunk, Signal::SetChunkSize(255));
}

#[test]
fn unknown_event_is_kept_opaque() {
    let bytes = bytes_from_hex_string("00 06 aa bb cc dd");
    let chunk = Signal::read(&bytes, SignalType::UserControlMessage.as_u8()).expect("read");
    assert_eq!(
        chunk,
        Signal::UserControlMessage(Event::UnknownEvent {
            event_type: 6,
            bytes: vec![0xaa, 0xbb, 0xcc, 0xdd],
        })
    );
}

#[test]
fn truncated_signal_is_rejected() {
    let bytes = bytes_from_hex_string("00 26");
    let err = Signal::read(&bytes, SignalType::SetWindowAckSize.as_u8()).expect_err("short");
    assert_eq!(err, SignalError::Truncated);
}
