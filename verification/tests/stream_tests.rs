//! Dispatcher behaviour: state transitions, stream errors, and the pairing
//! checks, run against the real crypto.

use ed25519_dalek::{ExpandedSecretKey, PublicKey, SecretKey};
use whatsapp_rs::adv::{AdvIdentity, SignedDeviceIdentity};
use whatsapp_rs::error::Error;
use whatsapp_rs::jid::{ContactJid, Server};
use whatsapp_rs::node::{Node, Value};
use whatsapp_rs::security::hash::mac_sha256;
use whatsapp_rs::session::Session;
use whatsapp_rs::session_store::SessionStore;
use whatsapp_rs::state::State;
use whatsapp_rs::stream::Stream;
use whatsapp_rs::stream::digest::Digested;
use whatsapp_rs::stream::error::StreamError;
use whatsapp_rs::stream::iq::Iq;
use whatsapp_rs::text::u32_to_string;
use whatsapp_rs::version::{parse, Version};

fn text(s: &str) -> Value {
    Value::Text(String::from(s))
}

fn stream_error_node(code: &str) -> Node {
    Node::from_attributes(
        "stream:error".to_owned(),
        vec![("code".to_owned(), text(code))],
    )
}

#[test]
fn code_515_zeroes_session_and_reinitiates_hello() {
    let mut stream = Stream::new(Session::new());
    stream.state = State::Connected;
    stream.session.store.update(vec![9u8; 32].as_slice()).unwrap();
    stream.session.store.write_cnt = 4;
    let out = stream.digest(stream_error_node("515")).unwrap();
    assert!(matches!(out, Digested::Reconnect));
    assert_eq!(stream.state, State::Hello);
    assert_eq!(stream.session.store.encode_key, vec![0u8; 32]);
    assert_eq!(stream.session.store.decode_key, vec![0u8; 32]);
    assert_eq!(stream.session.store.read_cnt, 0);
    assert_eq!(stream.session.store.write_cnt, 0);
}

#[test]
fn code_401_is_terminal_with_no_reconnect() {
    let mut stream = Stream::new(Session::new());
    stream.state = State::Connected;
    stream.session.store.update(vec![9u8; 32].as_slice()).unwrap();
    let keys_before = stream.session.store.encode_key.clone();
    let out = stream.digest(stream_error_node("401"));
    assert!(matches!(out, Err(Error::Unauthorized)));
    assert_eq!(stream.state, State::Connected);
    assert_eq!(stream.session.store.encode_key, keys_before);
}

#[test]
fn unknown_stream_error_code_is_protocol_error() {
    let mut stream = Stream::new(Session::new());
    stream.state = State::Connected;
    let out = stream.digest(stream_error_node("500"));
    assert!(matches!(out, Err(Error::UnknownErrorCode)));
    assert!(matches!(StreamError::from_code(515), Ok(StreamError::ForceReconnect)));
    assert!(matches!(StreamError::from_code(401), Ok(StreamError::Unauthorized)));
    assert!(matches!(StreamError::from_code(42), Err(Error::UnknownErrorCode)));
}

#[test]
fn unknown_nodes_are_quietly_ignored() {
    let mut stream = Stream::new(Session::new());
    stream.state = State::Connected;
    let node = Node::from_attributes("presence".to_owned(), Vec::new());
    assert!(matches!(stream.digest(node), Ok(Digested::Quiet)));
    let end = Node::from_attributes("xmlstreamend".to_owned(), Vec::new());
    assert!(matches!(stream.digest(end), Ok(Digested::Quiet)));
}

#[test]
fn success_is_answered_with_passive_activation() {
    let mut stream = Stream::new(Session::new());
    stream.state = State::Connected;
    let out = stream.digest(Node::from_attributes("success".to_owned(), Vec::new())).unwrap();
    match out {
        Digested::Reply(reply) => {
            assert_eq!(reply.description, "iq");
            assert_eq!(reply.attributes[1], ("type".to_owned(), text("set")));
            assert_eq!(reply.attributes[2], ("to".to_owned(), text("s.whatsapp.net")));
            assert_eq!(reply.attributes[3], ("xmlns".to_owned(), text("passive")));
            match reply.content {
                Value::List(children) => {
                    assert_eq!(children.len(), 1);
                    assert_eq!(children[0].description, "active");
                },
                other => panic!("unexpected content {other:?}"),
            }
        },
        other => panic!("unexpected digestion {other:?}"),
    }
}

#[test]
fn hello_then_handshake_state_walk() {
    let mut stream = Stream::new(Session::new());
    let key = stream.send_hello().unwrap();
    assert_eq!(key.len(), 32);
    assert_eq!(stream.state, State::Handshake);
    assert!(matches!(stream.send_hello(), Err(Error::WrongState)));
    // A frame in the hello state is a protocol violation.
    let mut fresh = Stream::new(Session::new());
    assert!(matches!(fresh.process(&[0, 0, 0]), Err(Error::WrongState)));
}

#[test]
fn process_binary_classifies_frames() {
    let mut stream = Stream::new(Session::new());
    stream.state = State::Handshake;
    assert!(matches!(
        stream.process_binary(&[0x88, 0x02, 0x03, 0xF3]),
        Err(Error::WsClose)
    ));
    // A hello reply: two zero bytes open the length prefix of the first
    // frame.
    let framed = whatsapp_rs::codec::encode_frame(false, &[0xAA, 0xBB]).unwrap();
    let hello = stream.process_binary(framed.as_slice()).unwrap();
    assert_eq!(hello, Some(vec![0xAA, 0xBB]));
    // Anything else is already an encrypted node frame: no result, the node
    // path takes it.
    assert_eq!(stream.process_binary(&[1, 2, 3]).unwrap(), None);
    // A hello-shaped buffer without a complete frame is an unexpected
    // message.
    assert!(matches!(
        stream.process_binary(&[0, 0]),
        Err(Error::UnexpectedMessage)
    ));
}

#[test]
fn pair_device_builds_code_and_confirmation() {
    let mut stream = Stream::new(Session::new());
    stream.state = State::Connected;
    let container = Node::new(
        "pair-device".to_owned(),
        Vec::new(),
        Value::List(vec![Node::new(
            "ref".to_owned(),
            Vec::new(),
            text("REF123"),
        )]),
    );
    let node = Node::new(
        "iq".to_owned(),
        vec![("id".to_owned(), text("abc"))],
        Value::List(vec![container]),
    );
    match stream.digest(node).unwrap() {
        Digested::Pairing(code, confirm) => {
            assert!(code.starts_with("REF123,"));
            assert_eq!(code.split(',').count(), 4);
            assert_eq!(confirm.description, "iq");
            assert_eq!(confirm.attributes[0], ("id".to_owned(), text("abc")));
            assert_eq!(confirm.attributes[1], ("type".to_owned(), text("result")));
            assert_eq!(confirm.content, Value::Null);
        },
        other => panic!("unexpected digestion {other:?}"),
    }
}

fn signed_identity(session: &Session, details: &[u8]) -> (AdvIdentity, Vec<u8>) {
    // The account side: an identity record signed over the account message
    // with a fresh signing key, then wrapped with the HMAC the client
    // checks.
    let account_secret = SecretKey::from_bytes(&[11u8; 32]).unwrap();
    let account_public = PublicKey::from(&account_secret);
    let mut message = vec![6u8, 0u8];
    message.extend_from_slice(details);
    message.extend_from_slice(&session.credentials.identity_keypair.public);
    let signature = ExpandedSecretKey::from(&account_secret)
        .sign(&message, &account_public)
        .to_bytes()
        .to_vec();
    let account = SignedDeviceIdentity {
        details: details.to_vec(),
        account_signature_key: account_public.to_bytes().to_vec(),
        account_signature: signature,
        device_signature: Vec::new(),
    };
    let hmac_details = details.to_vec();
    let hmac = mac_sha256(
        &session.credentials.signed_keypair.key_pair.public,
        &hmac_details,
    );
    (
        AdvIdentity { hmac_details, hmac, account, key_index: 1 },
        message,
    )
}

#[test]
fn pair_success_flow_verifies_and_persists() {
    let session = Session::new();
    let (adv, _) = signed_identity(&session, b"inner-details");
    assert!(Iq::verify_companion(&session.credentials, &adv).is_ok());

    // The verified record is re-signed and persisted with the reply.
    let mut account = adv.account;
    account.sign(&session.credentials).unwrap();
    assert_eq!(account.device_signature.len(), 64);
    let stripped = account.without_key();
    assert!(stripped.account_signature_key.is_empty());

    let mut store = SessionStore::new();
    let request = Node::new(
        "iq".to_owned(),
        vec![("id".to_owned(), text("pair-1"))],
        Value::Null,
    );
    let reply = Iq::pair_device_reply(&request, 1, account, vec![1, 2, 3], &mut store).unwrap();
    assert!(store.companion_identity.is_some());
    assert_eq!(reply.description, "iq");
    match reply.content {
        Value::List(outer) => {
            assert_eq!(outer[0].description, "pair-device-sign");
            match &outer[0].content {
                Value::List(inner) => {
                    assert_eq!(inner[0].description, "device-identity");
                    assert_eq!(
                        inner[0].attributes[0],
                        ("key-index".to_owned(), text("1"))
                    );
                    assert_eq!(inner[0].content, Value::Bytes(vec![1, 2, 3]));
                },
                other => panic!("unexpected inner content {other:?}"),
            }
        },
        other => panic!("unexpected reply content {other:?}"),
    }
}

#[test]
fn bit_flipped_hmac_is_rejected_and_nothing_persists() {
    let session = Session::new();
    let (mut adv, _) = signed_identity(&session, b"inner-details");
    adv.hmac[3] ^= 0x40;
    assert!(matches!(
        Iq::verify_companion(&session.credentials, &adv),
        Err(Error::IqInvalidSignature)
    ));
    let store = SessionStore::new();
    assert!(store.companion_identity.is_none());
    assert!(store.companion.is_none());
}

#[test]
fn bit_flipped_signature_is_rejected_and_nothing_persists() {
    let session = Session::new();
    let (mut adv, _) = signed_identity(&session, b"inner-details");
    adv.account.account_signature[10] ^= 0x04;
    assert!(matches!(
        Iq::verify_companion(&session.credentials, &adv),
        Err(Error::IqInvalidMessageSignature)
    ));
    let store = SessionStore::new();
    assert!(store.companion_identity.is_none());
}

#[test]
fn save_companion_stores_the_device_jid() {
    let jid = ContactJid {
        user: "999".to_owned(),
        server: Server::Whatsapp,
        device: 4,
        agent: 0,
    };
    let device = Node::from_attributes(
        "device".to_owned(),
        vec![("jid".to_owned(), Value::Jid(jid))],
    );
    let container = Node::new("pair-success".to_owned(), Vec::new(), Value::List(vec![device]));
    let mut store = SessionStore::new();
    Iq::save_companion(&container, &mut store).unwrap();
    let companion = store.companion.unwrap();
    assert_eq!(companion.user, "999");
    assert_eq!(companion.device, 4);
    // A container without a device node reports the missing device.
    let empty = Node::new("pair-success".to_owned(), Vec::new(), Value::Null);
    let mut store2 = SessionStore::new();
    assert!(matches!(
        Iq::save_companion(&empty, &mut store2),
        Err(Error::IqMissingDevice)
    ));
}

#[test]
fn jid_textual_forms_parse() {
    let j = ContactJid::from_complex("12345_7:2@s.whatsapp.net".to_owned(), Server::Whatsapp)
        .unwrap();
    assert_eq!(j.user, "12345");
    assert_eq!(j.agent, 7);
    assert_eq!(j.device, 2);
    let j2 = ContactJid::from_complex("12345@c.us".to_owned(), Server::User).unwrap();
    assert_eq!(j2.user, "12345");
    assert_eq!(j2.device, 0);
    assert_eq!(j2.agent, 0);
    assert!(!j2.is_companion());
    let j3 = ContactJid::from_complex("777_3@c.us".to_owned(), Server::User).unwrap();
    assert_eq!(j3.agent, 3);
    assert_eq!(j3.device, 0);
    let j4 = ContactJid::from_complex("777:9@c.us".to_owned(), Server::User).unwrap();
    assert_eq!(j4.device, 9);
    assert_eq!(j4.agent, 0);
    assert!(j4.is_companion());
    assert!(ContactJid::from_complex("a:b@c.us".to_owned(), Server::User).is_err());
    let companion = ContactJid::from_companion("u@s.whatsapp.net".to_owned(), 3, 1);
    assert_eq!(companion.user, "u");
    assert!(companion.is_companion());
}

#[test]
fn version_strings_parse() {
    let version = Version {
        is_broken: false,
        is_below_soft: false,
        hard_update_time: 0,
        beta: String::new(),
        current_version: "2.2228.14".to_owned(),
    };
    let app = parse(&version).unwrap();
    assert_eq!(app.primary, 2);
    assert_eq!(app.secondary, 2228);
    assert_eq!(app.tertiary, 14);
    let bad = Version { current_version: "2.2228".to_owned(), ..version };
    assert!(parse(&bad).is_none());
    let dotted = Version { current_version: "1.2.3.4".to_owned(), ..bad };
    assert!(parse(&dotted).is_none());
}

#[test]
fn decimal_formatting_round_trips() {
    for x in [0u32, 1, 9, 10, 515, 65535, u32::MAX] {
        assert_eq!(u32_to_string(x), x.to_string());
    }
}
