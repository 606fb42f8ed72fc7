use rtmp::amf::Value;
use rtmp::message::Message;
use rtmp::message::MessageCommand;
use rtmp::message::MessageData;
use rtmp::message::MessageError;
use rtmp::message::MessageResponse;
use rtmp::message::MessageStatus;
use rtmp::util::bytes_from_hex_string;

fn object_from_entries(entries: Vec<(&str, Value)>) -> Value {
    let mut obj = Value::Object(Vec::new());
    for (key, val) in entries {
        obj.object_insert(key.to_string(), val);
    }
    obj
}

#[test]
fn can_read_command_response() {
    // 02 00 07 5f 72 65 73 75 6c 74   Utf8("_result")
    // 00 3f f0 00 00 00 00 00 00      Number(1.0)
    // 03 ... 00 00 09                 Object{fmsVer, capabilities, mode}
    // 02 00 01 58                     Utf8("X")
    let bytes = bytes_from_hex_string(
        "02 00 07 5f 72 65 73 75 6c 74 00 3f f0 00 00 00 00 00 00 03 00 06 66 6d 73 56 65 72 02 00 0f 46 4d 53 2f 35 2c 30 2c 31 35 2c 35 30 30 34 00 0c 63 61 70 61 62 69 6c 69 74 69 65 73 00 40 6f e0 00 00 00 00 00 00 04 6d 6f 64 65 00 3f f0 00 00 00 00 00 00 00 00 09 02 00 01 58",
    );
    let m = Message::read(&bytes, 20).expect("read");
    let data = object_from_entries(vec![
        ("capabilities", Value::Number(255.0f64.to_bits())),
        ("fmsVer", Value::Utf8("FMS/5,0,15,5004".to_string())),
        ("mode", Value::Number(1.0f64.to_bits())),
    ]);
    assert_eq!(
        m,
        MessageData::Response(MessageResponse {
            id: 1.0f64.to_bits(),
            data,
            opt: Value::Utf8("X".to_string()),
        })
    );
}

#[test]
fn can_read_command_message_with_no_data() {
    // 02 00 08 6f 6e 42 57 44 6f 6e 65   Utf8("onBWDone")
    // 00 00 00 00 00 00 00 00 00         Number(0.0)
    // 05                                 Null
    let bytes =
        bytes_from_hex_string("02 00 08 6f 6e 42 57 44 6f 6e 65 00 00 00 00 00 00 00 00 00 05");
    let m = Message::read(&bytes, 20).expect("read");
    assert_eq!(
        m,
        MessageData::Command(MessageCommand {
            name: "onBWDone".to_string(),
            id: 0.0f64.to_bits(),
            data: Value::Null,
            opt: Vec::new(),
        })
    );
}

fn round_trip(data: MessageData) -> MessageData {
    let msg = Message { stream_id: 0, data };
    let mut buf = Vec::new();
    Message::write(&mut buf, &msg).expect("write");
    Message::read(&buf, 20).expect("read")
}

#[test]
fn command_round_trip() {
    // Round trip: decode_message(encode_message(m), 20) == m.
    let make = || {
        MessageData::Command(MessageCommand {
            name: "createStream".to_string(),
            id: 2.0f64.to_bits(),
            data: Value::Null,
            opt: vec![Value::Utf8("extra".to_string()), Value::Number(7.0f64.to_bits())],
        })
    };
    assert_eq!(round_trip(make()), make());
}

#[test]
fn response_round_trip() {
    let make = || {
        MessageData::Response(MessageResponse {
            id: 5.0f64.to_bits(),
            data: Value::Null,
            opt: Value::Number(9.0f64.to_bits()),
        })
    };
    assert_eq!(round_trip(make()), make());
}

#[test]
fn status_round_trip() {
    let make = || {
        MessageData::Status(MessageStatus {
            level: "status".to_string(),
            code: "NetStream.Publish.Start".to_string(),
            description: "go".to_string(),
        })
    };
    assert_eq!(round_trip(make()), make());
}

#[test]
fn error_round_trip() {
    let make = || {
        MessageData::Error(
            3.0f64.to_bits(),
            MessageError(MessageStatus {
                level: "error".to_string(),
                code: "NetConnection.Call.Failed".to_string(),
                description: "no".to_string(),
            }),
        )
    };
    assert_eq!(round_trip(make()), make());
}

#[test]
fn get_status_reads_the_trailing_object() {
    let opt = object_from_entries(vec![
        ("code", Value::Utf8("NetConnection.Connect.Success".to_string())),
        ("description", Value::Utf8("Connection succeeded.".to_string())),
        ("level", Value::Utf8("status".to_string())),
        ("objectEncoding", Value::Number(0.0f64.to_bits())),
    ]);
    let msg = Message {
        stream_id: 0,
        data: MessageData::Response(MessageResponse {
            id: 1.0f64.to_bits(),
            data: Value::Null,
            opt,
        }),
    };
    let status = msg.get_status().expect("status");
    assert_eq!(status.level, "status");
    assert_eq!(status.code, "NetConnection.Connect.Success");
    assert_eq!(status.description, "Connection succeeded.");
    assert_eq!(status.encoding, 0);
}

#[test]
fn error_constructors_carry_their_triple() {
    let e = MessageError::new_error("A.Code", "something");
    assert_eq!(e.0.level, "error");
    assert_eq!(e.0.code, "A.Code");
    let s = MessageError::new_status("B.Code", "else");
    assert_eq!(s.0.level, "status");
    assert_eq!(s.0.description, "else");
}

#[test]
fn message_new_defaults_to_the_connection_channel() {
    let data = || MessageData::Command(MessageCommand {
        name: "x".to_string(),
        id: 0,
        data: Value::Null,
        opt: Vec::new(),
    });
    assert_eq!(Message::new(None, data()).stream_id, 0);
    assert_eq!(Message::new(Some(9), data()).stream_id, 9);
}
