//! Tree and frame codec behaviour on concrete values.

use whatsapp_rs::codec::{decode_frame, encode_frame};
use whatsapp_rs::decoder::NodeDecoder;
use whatsapp_rs::encoder::NodeEncoder;
use whatsapp_rs::error::Error;
use whatsapp_rs::jid::{ContactJid, Server};
use whatsapp_rs::node::{Node, Value};
use whatsapp_rs::tokens::TokenTables;

fn text(s: &str) -> Value {
    Value::Text(String::from(s))
}

#[test]
pub fn encode_decode_node() {
    let node = Node::new(
        "iq".to_owned(),
        vec![
            ("Hello".to_owned(), text("100")),
            ("To".to_owned(), text("whatsapp-rs")),
        ],
        Value::Text("This is some content".to_owned()),
    );
    let encoded = NodeEncoder::encode(&node).unwrap();
    let decoded = NodeDecoder::decode(encoded.as_slice()).unwrap();
    assert_eq!(node, decoded);
}

#[test]
pub fn encode_decode_recursive_nodes() {
    let node = Node::new(
        "iq".to_owned(),
        vec![
            ("Hello".to_owned(), text("100")),
            ("To".to_owned(), text("whatsapp-rs")),
        ],
        Value::List(vec![Node::new(
            "pair".to_owned(),
            vec![
                ("So".to_owned(), text("23493274")),
                ("is".to_owned(), text("a number")),
            ],
            Value::Text("This is definitely some content".to_owned()),
        )]),
    );
    let encoded = NodeEncoder::encode(&node).unwrap();
    let decoded = NodeDecoder::decode(encoded.as_slice()).unwrap();
    assert_eq!(node, decoded);
}

#[test]
fn token_table_entries_round_trip() {
    let tables = TokenTables::standard();
    for entry in &tables.single {
        let node = Node::from_attributes(entry.clone(), Vec::new());
        let encoded = NodeEncoder::encode(&node).unwrap();
        let decoded = NodeDecoder::decode(encoded.as_slice()).unwrap();
        assert_eq!(node, decoded);
        // A token entry costs a single byte on the wire.
        assert_eq!(encoded.len(), 1 + 2 + 1);
    }
    for entry in &tables.double {
        let node = Node::from_attributes(entry.clone(), Vec::new());
        let encoded = NodeEncoder::encode(&node).unwrap();
        let decoded = NodeDecoder::decode(encoded.as_slice()).unwrap();
        assert_eq!(node, decoded);
    }
}

#[test]
fn packed_strings_round_trip() {
    for s in [
        "100", "23493274", "0", "1.5", "-42", "0123456789.-", "3.14159", "-",
        "ABCDEF09", "DEADBEEF", "0A1B2C3D4", "F",
    ] {
        let node = Node::new("x".to_owned(), Vec::new(), text(s));
        let encoded = NodeEncoder::encode(&node).unwrap();
        let decoded = NodeDecoder::decode(encoded.as_slice()).unwrap();
        assert_eq!(node, decoded, "string {s:?} did not round trip");
    }
}

#[test]
fn packed_encoding_is_nibble_packed() {
    // "100" packs into a marker, a length byte and two nibble bytes.
    let node = Node::new("x".to_owned(), Vec::new(), text("1234"));
    let encoded = NodeEncoder::encode(&node).unwrap();
    // flag, size tag, size, desc tag, desc len, 'x', nibble tag, length, 2 bytes
    assert_eq!(encoded.len(), 10);
    assert_eq!(encoded[6], 255);
    assert_eq!(encoded[7], 2);
    assert_eq!(encoded[8], 0x12);
    assert_eq!(encoded[9], 0x34);
}

#[test]
fn bytes_and_null_round_trip() {
    // 0xFF 0xFE is not valid UTF-8, so it survives as raw bytes.
    let node = Node::new(
        "blob".to_owned(),
        vec![("k".to_owned(), Value::Null)],
        Value::Bytes(vec![0xFF, 0xFE, 0x00, 0x01]),
    );
    let encoded = NodeEncoder::encode(&node).unwrap();
    let decoded = NodeDecoder::decode(encoded.as_slice()).unwrap();
    assert_eq!(node, decoded);
}

#[test]
fn companion_jid_round_trips() {
    let jid = ContactJid {
        user: "123456".to_owned(),
        server: Server::Whatsapp,
        device: 7,
        agent: 3,
    };
    let node = Node::new("j".to_owned(), Vec::new(), Value::Jid(jid));
    let encoded = NodeEncoder::encode(&node).unwrap();
    let decoded = NodeDecoder::decode(encoded.as_slice()).unwrap();
    assert_eq!(node, decoded);
}

#[test]
fn jid_pair_round_trips() {
    for server in [Server::User, Server::Group, Server::Broadcast, Server::Call, Server::Whatsapp]
    {
        let jid = ContactJid { user: "alice".to_owned(), server, device: 0, agent: 0 };
        let node = Node::new("j".to_owned(), Vec::new(), Value::Jid(jid));
        let encoded = NodeEncoder::encode(&node).unwrap();
        let decoded = NodeDecoder::decode(encoded.as_slice()).unwrap();
        assert_eq!(node, decoded);
    }
}

#[test]
fn empty_node_marker() {
    let node = Node::from_attributes("0".to_owned(), Vec::new());
    let encoded = NodeEncoder::encode(&node).unwrap();
    assert_eq!(encoded, vec![0, 248, 0]);
    assert!(matches!(
        NodeDecoder::decode(encoded.as_slice()),
        Err(Error::NoNode)
    ));
}

#[test]
fn frame_prologue_exact_bytes() {
    let encoded = encode_frame(true, &[0x01, 0x02, 0x03]).unwrap();
    assert_eq!(encoded, vec![87, 65, 5, 2, 0x00, 0x00, 0x03, 0x01, 0x02, 0x03]);
}

#[test]
fn frame_boundary_lengths() {
    for len in [0usize, 1, 65535, 16_777_215] {
        let payload = vec![0xABu8; len];
        let encoded = encode_frame(true, payload.as_slice()).unwrap();
        assert_eq!(&encoded[..4], &[87, 65, 5, 2]);
        let frames = decode_frame(&encoded[4..]);
        assert_eq!(frames.len(), 1);
        assert_eq!(frames[0], payload);
    }
    let too_long = vec![0u8; 16_777_216];
    assert!(matches!(
        encode_frame(true, too_long.as_slice()),
        Err(Error::FrameTooLong)
    ));
}

#[test]
fn frames_concatenate_and_truncated_tail_drops() {
    let a = encode_frame(false, &[1, 2]).unwrap();
    let b = encode_frame(false, &[3]).unwrap();
    let mut buffer = a;
    buffer.extend_from_slice(&b);
    // A truncated trailing frame: a length prefix promising more than
    // remains.
    buffer.extend_from_slice(&[0, 0, 9, 1, 2]);
    let frames = decode_frame(&buffer);
    assert_eq!(frames, vec![vec![1, 2], vec![3]]);
}

#[test]
fn supplied_tables_round_trip() {
    // A deployment carrying its own dictionaries supplies them to the codec.
    let tables = whatsapp_rs::tokens::TokenTables::from_entries(
        vec!["alpha".to_owned(), "beta".to_owned()],
        vec!["gamma".to_owned()],
    )
    .unwrap();
    let node = Node::from_attributes("beta".to_owned(), Vec::new());
    let encoded = NodeEncoder::encode_with(tables, &node).unwrap();
    // "beta" is entry 1, so its token byte is 2.
    assert_eq!(encoded, vec![0, 248, 1, 2]);
    let tables = whatsapp_rs::tokens::TokenTables::from_entries(
        vec!["alpha".to_owned(), "beta".to_owned()],
        vec!["gamma".to_owned()],
    )
    .unwrap();
    let decoded = NodeDecoder::decode_with(tables, encoded.as_slice()).unwrap();
    assert_eq!(node, decoded);
    // Oversized tables are refused.
    let too_many = vec![String::new(); 236];
    assert!(whatsapp_rs::tokens::TokenTables::from_entries(too_many, Vec::new()).is_err());
}

#[test]
fn node_too_large_is_rejected() {
    let mut attributes = Vec::new();
    for i in 0..40000usize {
        attributes.push((format!("k{i}"), Value::Null));
    }
    let node = Node::new("big".to_owned(), attributes, Value::Null);
    assert!(matches!(
        NodeEncoder::encode(&node),
        Err(Error::NodeTooLarge)
    ));
}
