use node::codec::{decode_envelope, encode_envelope, encode_frame, Decoded, Decoder};
use node::identity::{Oid, ProjId, PublicKey};
use node::message::{Addr, Message, RefEntry, Signature};
use node::NETWORK_MAGIC;

fn sample_addr() -> Addr {
    Addr { ip: u32::from_be_bytes([192, 168, 0, 7]), port: 9418 }
}

fn roundtrip(msg: Message) -> Message {
    let bytes = encode_envelope(NETWORK_MAGIC, &msg);
    let env = decode_envelope(&bytes).expect("the canonical bytes decode");
    assert_eq!(env.magic, NETWORK_MAGIC);
    let again = encode_envelope(env.magic, &env.msg);
    assert_eq!(again, bytes, "decoding and re-encoding is the identity on bytes");
    env.msg
}

#[test]
fn codec_roundtrip_hello() {
    let msg = Message::Hello {
        id: PublicKey { bytes: [7; 32] },
        timestamp: 1234567890,
        addrs: vec![sample_addr(), Addr { ip: 1, port: 1 }],
        git_url: String::from("file:///tmp/projects"),
        version: 1,
        signature: Signature::empty(),
    };
    match roundtrip(msg) {
        Message::Hello { id, timestamp, addrs, git_url, version, .. } => {
            assert_eq!(id, PublicKey { bytes: [7; 32] });
            assert_eq!(timestamp, 1234567890);
            assert_eq!(addrs, vec![sample_addr(), Addr { ip: 1, port: 1 }]);
            assert_eq!(git_url, "file:///tmp/projects");
            assert_eq!(version, 1);
        }
        other => panic!("wrong variant: {:?}", other),
    }
}

#[test]
fn codec_roundtrip_inventory() {
    let msg = Message::Inventory {
        timestamp: 1000,
        inv: vec![ProjId { digest: [1; 32] }, ProjId { digest: [2; 32] }],
        origin: Some(PublicKey { bytes: [9; 32] }),
    };
    match roundtrip(msg) {
        Message::Inventory { timestamp, inv, origin } => {
            assert_eq!(timestamp, 1000);
            assert_eq!(inv.len(), 2);
            assert_eq!(inv[0], ProjId { digest: [1; 32] });
            assert_eq!(origin, Some(PublicKey { bytes: [9; 32] }));
        }
        other => panic!("wrong variant: {:?}", other),
    }
    let empty = Message::Inventory { timestamp: 0, inv: vec![], origin: None };
    match roundtrip(empty) {
        Message::Inventory { timestamp: 0, inv, origin: None } => assert!(inv.is_empty()),
        other => panic!("wrong variant: {:?}", other),
    }
}

#[test]
fn codec_roundtrip_refs() {
    let msg = Message::Refs {
        proj: ProjId { digest: [3; 32] },
        refs: vec![
            RefEntry { name: String::from("heads/master"), oid: Oid { bytes: [0xab; 20] } },
            RefEntry { name: String::from("tags/v1"), oid: Oid { bytes: [0x01; 20] } },
        ],
        signature: Signature::empty(),
    };
    match roundtrip(msg) {
        Message::Refs { refs, .. } => {
            assert_eq!(refs[0].name, "heads/master");
            assert_eq!(refs[0].oid, Oid { bytes: [0xab; 20] });
            assert_eq!(refs[1].name, "tags/v1");
        }
        other => panic!("wrong variant: {:?}", other),
    }
}

#[test]
fn codec_roundtrip_small_messages() {
    assert!(matches!(
        roundtrip(Message::Ping { nonce: u64::MAX - 9 }),
        Message::Ping { nonce } if nonce == u64::MAX - 9
    ));
    assert!(matches!(roundtrip(Message::Pong { nonce: 0 }), Message::Pong { nonce: 0 }));
    assert!(matches!(
        roundtrip(Message::GetRefs { proj: ProjId { digest: [4; 32] } }),
        Message::GetRefs { proj } if proj == ProjId { digest: [4; 32] }
    ));
    assert!(matches!(
        roundtrip(Message::GetInventory { ids: vec![ProjId { digest: [5; 32] }] }),
        Message::GetInventory { ids } if ids.len() == 1
    ));
    assert!(matches!(
        roundtrip(Message::Disconnect { reason: String::from("closing") }),
        Message::Disconnect { reason } if reason == "closing"
    ));
}

#[test]
fn codec_envelope_is_json() {
    let bytes = encode_envelope(7, &Message::Ping { nonce: 3 });
    let text = String::from_utf8(bytes).unwrap();
    assert_eq!(text, "{\"magic\":7,\"msg\":{\"type\":\"ping\",\"nonce\":3}}");
}

#[test]
fn codec_rejects_noncanonical() {
    // Stray whitespace, wrong field order or trailing bytes are refused.
    assert!(decode_envelope(b"{\"magic\": 7,\"msg\":{\"type\":\"ping\",\"nonce\":3}}").is_none());
    assert!(decode_envelope(b"{\"msg\":{\"type\":\"ping\",\"nonce\":3},\"magic\":7}").is_none());
    assert!(decode_envelope(b"{\"magic\":7,\"msg\":{\"type\":\"ping\",\"nonce\":3}}x").is_none());
    assert!(decode_envelope(b"").is_none());
}

#[test]
fn codec_frame_has_length_prefix() {
    let msg = Message::Ping { nonce: 3 };
    let payload = encode_envelope(NETWORK_MAGIC, &msg);
    let frame = encode_frame(NETWORK_MAGIC, &msg).unwrap();
    assert_eq!(frame.len(), payload.len() + 4);
    let n = payload.len() as u32;
    assert_eq!(&frame[0..4], &n.to_be_bytes());
    assert_eq!(&frame[4..], &payload[..]);
}

#[test]
fn codec_streaming_decoder() {
    let a = encode_frame(NETWORK_MAGIC, &Message::Ping { nonce: 1 }).unwrap();
    let b = encode_frame(NETWORK_MAGIC, &Message::Pong { nonce: 2 }).unwrap();
    let mut stream: Vec<u8> = Vec::new();
    stream.extend_from_slice(&a);
    stream.extend_from_slice(&b);
    let mut dec = Decoder::new();
    // Feed in two arbitrary chunks.
    dec.input(&stream[..7]);
    assert!(matches!(dec.decode_next(), Decoded::Incomplete));
    dec.input(&stream[7..]);
    assert!(matches!(
        dec.decode_next(),
        Decoded::Envelope(env) if matches!(env.msg, Message::Ping { nonce: 1 })
    ));
    assert!(matches!(
        dec.decode_next(),
        Decoded::Envelope(env) if matches!(env.msg, Message::Pong { nonce: 2 })
    ));
    assert!(matches!(dec.decode_next(), Decoded::Incomplete));
}

#[test]
fn codec_decoder_rejects_garbage() {
    let mut dec = Decoder::new();
    dec.input(&[0, 0, 0, 4, b'a', b'b', b'c', b'd']);
    assert!(matches!(dec.decode_next(), Decoded::Malformed));
    let mut dec2 = Decoder::new();
    // A length prefix past the frame limit is refused outright.
    dec2.input(&[0xff, 0xff, 0xff, 0xff]);
    assert!(matches!(dec2.decode_next(), Decoded::Malformed));
}
