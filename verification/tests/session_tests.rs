use rtmp::amf::Value;
use rtmp::chunk::Chunk;
use rtmp::connection::Connection;
use rtmp::connection::RoutedAction;
use rtmp::flag::RecordFlag;
use rtmp::handshake::Handshake;
use rtmp::handshake::HandshakeProcessResult;
use rtmp::handshake::PeerType;
use rtmp::message::Message;
use rtmp::message::MessageData;
use rtmp::message::MessageResponse;
use rtmp::message::MessageStatus;
use rtmp::stream::NetStreamState;

fn object_from_entries(entries: Vec<(&str, Value)>) -> Value {
    let mut obj = Value::Object(Vec::new());
    for (key, val) in entries {
        obj.object_insert(key.to_string(), val);
    }
    obj
}

#[test]
fn transaction_ids_are_distinct_while_outstanding() {
    // Ids handed out while others are outstanding never repeat.
    let mut conn = Connection::new("rtmp://example.com/app".to_string());
    let mut seen = Vec::new();
    for _ in 0..10 {
        let (_msg, id) = conn.send_command("createStream", Vec::new()).expect("send");
        assert!(!seen.contains(&id), "id {} repeated", id);
        seen.push(id);
    }
}

#[test]
fn explicit_id_collision_fails_the_new_command() {
    let mut conn = Connection::new("rtmp://example.com/app".to_string());
    conn.send_raw_command(None, "first", Some(9), Value::Null, Vec::new())
        .expect("first registration");
    let err = conn
        .send_raw_command(None, "second", Some(9), Value::Null, Vec::new())
        .expect_err("the waiter for 9 is still registered");
    assert_eq!(err.0.level, "error");
}

#[test]
fn response_is_delivered_exactly_once() {
    let mut conn = Connection::new("rtmp://example.com/app".to_string());
    let (_msg, id) = conn.send_command("createStream", Vec::new()).expect("send");
    let response = |id: u32| Message {
        stream_id: 0,
        data: MessageData::Response(MessageResponse {
            id: (id as f64).to_bits(),
            data: Value::Null,
            opt: Value::Number(5.0f64.to_bits()),
        }),
    };
    match conn.route_message(response(id)) {
        RoutedAction::DeliverResponse { tx_id, .. } => assert_eq!(tx_id, id),
        other => panic!("expected delivery, got {:?}", other),
    }
    // The id is no longer outstanding: a second response is dropped.
    match conn.route_message(response(id)) {
        RoutedAction::DropUnmatched => {}
        other => panic!("expected drop, got {:?}", other),
    }
}

#[test]
fn stream_status_routes_by_registration() {
    let mut conn = Connection::new("rtmp://example.com/app".to_string());
    let response = MessageResponse {
        id: 2.0f64.to_bits(),
        data: Value::Null,
        opt: Value::Number(5.0f64.to_bits()),
    };
    let stream = conn.new_stream(&response).expect("stream id 5");
    assert_eq!(stream.id, 5);
    let status = |sid: u32| Message {
        stream_id: sid,
        data: MessageData::Status(MessageStatus {
            level: "status".to_string(),
            code: "NetStream.Publish.Start".to_string(),
            description: String::new(),
        }),
    };
    match conn.route_message(status(5)) {
        RoutedAction::DeliverStatus { stream_id, .. } => assert_eq!(stream_id, 5),
        other => panic!("expected stream delivery, got {:?}", other),
    }
    conn.remove_stream(5);
    match conn.route_message(status(5)) {
        RoutedAction::DropNoRoute { stream_id } => assert_eq!(stream_id, 5),
        other => panic!("expected drop, got {:?}", other),
    }
}

#[test]
fn non_numeric_create_stream_response_fails() {
    let mut conn = Connection::new("rtmp://example.com/app".to_string());
    let response = MessageResponse {
        id: 2.0f64.to_bits(),
        data: Value::Null,
        opt: Value::Utf8("oops".to_string()),
    };
    let err = conn.new_stream(&response).expect_err("no stream id");
    assert_eq!(err.0.code, "NetStream.Create.Failed");
}

#[test]
fn close_fails_all_outstanding_commands() {
    let mut conn = Connection::new("rtmp://example.com/app".to_string());
    let (_m1, id1) = conn.send_command("a", Vec::new()).expect("send");
    let (_m2, id2) = conn.send_command("b", Vec::new()).expect("send");
    let failed = conn.close();
    assert_eq!(failed, vec![id1, id2]);
    assert!(!conn.is_connected());
    // Nothing is outstanding afterwards.
    let late = Message {
        stream_id: 0,
        data: MessageData::Response(MessageResponse {
            id: (id1 as f64).to_bits(),
            data: Value::Null,
            opt: Value::Null,
        }),
    };
    assert!(matches!(conn.route_message(late), RoutedAction::DropUnmatched));
}

#[test]
fn stream_publish_walks_the_lifecycle() {
    // Created, then PublishRequest on publish, then Published on the
    // server's start notification; other codes do not move the state.
    let mut conn = Connection::new("rtmp://example.com/app".to_string());
    let response = MessageResponse {
        id: 2.0f64.to_bits(),
        data: Value::Null,
        opt: Value::Number(1.0f64.to_bits()),
    };
    let mut stream = conn.new_stream(&response).expect("stream");
    assert!(matches!(stream.state(), NetStreamState::Created));
    let msg = stream.publish("cameraFeed", RecordFlag::Live);
    assert_eq!(msg.stream_id, 1);
    assert!(matches!(stream.state(), NetStreamState::PublishRequest(_)));
    let other = MessageStatus {
        level: "status".to_string(),
        code: "NetStream.Publish.Idle".to_string(),
        description: String::new(),
    };
    stream.on_status(&other);
    assert!(matches!(stream.state(), NetStreamState::PublishRequest(_)));
    let start = MessageStatus {
        level: "status".to_string(),
        code: "NetStream.Publish.Start".to_string(),
        description: String::new(),
    };
    stream.on_status(&start);
    assert!(matches!(stream.state(), NetStreamState::Published(_)));
}

#[test]
fn connect_happy_path_end_to_end() {
    // A scripted transport: handshake bytes, then a chunk carrying the
    // connect response; the connection ends up connected.
    let mut hs = Handshake::new(PeerType::Client);
    let random = vec![1u8; 1528];
    let c0c1 = hs.generate_outbound_p0_and_p1(&random);
    assert_eq!(c0c1.len(), 1537);
    let s1: Vec<u8> = vec![2u8; 1536];
    let mut server_bytes = vec![3u8];
    server_bytes.extend_from_slice(&s1);
    server_bytes.extend_from_slice(&c0c1[1..]);  // S2 echoes C1
    let after = match hs.process_bytes(&server_bytes).expect("handshake") {
        HandshakeProcessResult::Completed { response_bytes, remaining_bytes } => {
            assert_eq!(response_bytes, s1);
            remaining_bytes
        }
        other => panic!("expected completion, got {:?}", other),
    };
    assert!(after.is_empty());

    let mut conn = Connection::new("rtmp://localhost:1935/vod/media".to_string());
    let (connect_msg, tx) = conn
        .send_connect_command("vod", "rtmp://localhost:1935/vod/media")
        .expect("connect registration");
    assert_eq!(tx, 1);
    assert!(matches!(connect_msg.data, MessageData::Command(_)));

    // The server's response chunk, as bytes on the wire.
    let opt = object_from_entries(vec![
        ("code", Value::Utf8("NetConnection.Connect.Success".to_string())),
        ("description", Value::Utf8("Connection succeeded.".to_string())),
        ("level", Value::Utf8("status".to_string())),
    ]);
    let server_response = Message {
        stream_id: 0,
        data: MessageData::Response(MessageResponse {
            id: 1.0f64.to_bits(),
            data: Value::Null,
            opt,
        }),
    };
    let mut wire = Vec::new();
    Chunk::write(&mut wire, &Chunk::Msg(server_response), conn.chunk_size()).expect("write");

    // The reader pump decodes and routes it.
    let (chunk, consumed) = Chunk::read(&wire, 0, conn.chunk_size()).expect("read");
    assert_eq!(consumed, wire.len());
    let msg = match chunk {
        Chunk::Msg(m) => m,
        other => panic!("expected a message, got {:?}", other),
    };
    let response = match conn.route_message(msg) {
        RoutedAction::DeliverResponse { tx_id, response } => {
            assert_eq!(tx_id, 1);
            response
        }
        other => panic!("expected delivery to the connect waiter, got {:?}", other),
    };
    let delivered = Message { stream_id: 0, data: MessageData::Response(response) };
    conn.on_connect_response(&delivered);
    assert!(conn.is_connected());
}

#[test]
fn failed_connect_leaves_the_connection_disconnected() {
    let mut conn = Connection::new("rtmp://example.com/app".to_string());
    let opt = object_from_entries(vec![
        ("code", Value::Utf8("NetConnection.Connect.Rejected".to_string())),
        ("level", Value::Utf8("error".to_string())),
    ]);
    let msg = Message {
        stream_id: 0,
        data: MessageData::Response(MessageResponse {
            id: 1.0f64.to_bits(),
            data: Value::Null,
            opt,
        }),
    };
    conn.on_connect_response(&msg);
    assert!(!conn.is_connected());
}
