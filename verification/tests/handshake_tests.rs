use rtmp::handshake::Handshake;
use rtmp::handshake::HandshakeError;
use rtmp::handshake::HandshakeProcessResult;
use rtmp::handshake::HandshakeState;
use rtmp::handshake::PeerType;

fn c1_random() -> Vec<u8> {
    (0..1528u32).map(|i| (i % 251) as u8).collect()
}

#[test]
fn opening_blob_is_c0_then_c1() {
    let hs = Handshake::new(PeerType::Client);
    let random = c1_random();
    let out = hs.generate_outbound_p0_and_p1(&random);
    assert_eq!(out.len(), 1537);
    assert_eq!(out[0], 3);
    assert_eq!(&out[1..9], &[0u8; 8]);
    assert_eq!(&out[9..], &random[..]);
}

#[test]
fn handshake_completes_in_one_feeding() {
    let mut hs = Handshake::new(PeerType::Client);
    let s1: Vec<u8> = (0..1536u32).map(|i| (i % 199) as u8).collect();
    let s2: Vec<u8> = vec![7; 1536];
    let mut input = vec![3u8];
    input.extend_from_slice(&s1);
    input.extend_from_slice(&s2);
    input.extend_from_slice(&[0xAA, 0xBB]);
    match hs.process_bytes(&input).expect("process") {
        HandshakeProcessResult::Completed { response_bytes, remaining_bytes } => {
            // C2 echoes S1; the surplus already belongs to the first chunk.
            assert_eq!(response_bytes, s1);
            assert_eq!(remaining_bytes, vec![0xAA, 0xBB]);
        }
        other => panic!("expected completion, got {:?}", other),
    }
    assert_eq!(hs.state(), HandshakeState::Completed);
}

#[test]
fn handshake_tolerates_any_segmentation() {
    let mut hs = Handshake::new(PeerType::Client);
    let s1: Vec<u8> = vec![9; 1536];
    let s2: Vec<u8> = vec![4; 1536];
    let mut stream = vec![3u8];
    stream.extend_from_slice(&s1);
    stream.extend_from_slice(&s2);
    let mut sent_c2 = false;
    let mut completed = false;
    for piece in stream.chunks(100) {
        match hs.process_bytes(&piece.to_vec()).expect("process") {
            HandshakeProcessResult::InProgress { response_bytes } => {
                if !response_bytes.is_empty() {
                    assert_eq!(response_bytes, s1);
                    sent_c2 = true;
                }
            }
            HandshakeProcessResult::Completed { response_bytes, remaining_bytes } => {
                assert!(response_bytes.is_empty() || response_bytes == s1);
                assert!(remaining_bytes.is_empty());
                completed = true;
            }
        }
    }
    assert!(sent_c2);
    assert!(completed);
}

#[test]
fn wrong_version_is_refused() {
    let mut hs = Handshake::new(PeerType::Client);
    let mut input = vec![6u8];
    input.extend_from_slice(&vec![0u8; 1536 * 2]);
    let err = hs.process_bytes(&input).expect_err("version 6");
    assert_eq!(err, HandshakeError::UnsupportedVersion { version: 6 });
}
