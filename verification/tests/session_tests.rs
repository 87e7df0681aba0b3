//! Session store, handshake and crypto-facing behaviour on concrete values.

use whatsapp_rs::error::Error;
use whatsapp_rs::handshake::Handshake;
use whatsapp_rs::security::AsNonce;
use whatsapp_rs::security::aes;
use whatsapp_rs::session_store::SessionStore;

fn keyed_store() -> SessionStore {
    let mut store = SessionStore::new();
    let salt = vec![7u8; 32];
    store.update(salt.as_slice()).unwrap();
    store
}

#[test]
fn nonces_count_up_from_zero() {
    assert_eq!(0u64.nonce(), vec![0, 0, 0, 0, 0, 0, 0, 0, 0, 0, 0, 0]);
    assert_eq!(1u64.nonce(), vec![0, 0, 0, 0, 0, 0, 0, 0, 0, 0, 0, 1]);
    assert_eq!(
        0x0102030405060708u64.nonce(),
        vec![0, 0, 0, 0, 1, 2, 3, 4, 5, 6, 7, 8]
    );
    let mut counter = 5u64;
    let nonce = counter.get_increment_nonce_mut();
    assert_eq!(nonce, 5u64.nonce());
    assert_eq!(counter, 6);
}

#[test]
fn sequential_encrypts_consume_sequential_nonces() {
    let mut store = keyed_store();
    let mut ciphertexts = Vec::new();
    for i in 0..8u64 {
        assert_eq!(store.write_cnt, i);
        ciphertexts.push(store.encrypt(b"payload").unwrap());
    }
    assert_eq!(store.write_cnt, 8);
    assert_eq!(store.read_cnt, 0);
    // Distinct nonces give distinct ciphertexts for the same plaintext.
    for i in 0..ciphertexts.len() {
        for j in 0..i {
            assert_ne!(ciphertexts[i], ciphertexts[j]);
        }
    }
    // A receiver whose keys mirror ours and whose counter is aligned
    // recovers every payload in order.
    let mut receiver = SessionStore::new();
    receiver.update(vec![7u8; 32].as_slice()).unwrap();
    receiver.decode_key = receiver.encode_key.clone();
    for ct in &ciphertexts {
        assert_eq!(receiver.decrypt(ct.as_slice()).unwrap(), b"payload".to_vec());
    }
}

#[test]
fn counter_mismatched_nonce_fails_decryption() {
    let mut store = keyed_store();
    let ct = store.encrypt(b"secret").unwrap();
    let mut receiver = keyed_store();
    receiver.decode_key = receiver.encode_key.clone();
    // Skip one nonce: the counters no longer match and authentication
    // fails.
    receiver.read_cnt = 1;
    assert!(matches!(
        receiver.decrypt(ct.as_slice()),
        Err(Error::AesCipherFail)
    ));
}

#[test]
fn update_resets_counters_and_splits_expansion() {
    let mut store = SessionStore::new();
    store.read_cnt = 9;
    store.write_cnt = 11;
    store.update(vec![1u8; 32].as_slice()).unwrap();
    assert_eq!(store.read_cnt, 0);
    assert_eq!(store.write_cnt, 0);
    assert_eq!(store.encode_key.len(), 32);
    assert_eq!(store.decode_key.len(), 32);
    assert_ne!(store.encode_key, store.decode_key);
}

#[test]
fn reset_zeroes_keys_and_counters() {
    let mut store = keyed_store();
    store.encrypt(b"x").unwrap();
    store.reset();
    assert_eq!(store.encode_key, vec![0u8; 32]);
    assert_eq!(store.decode_key, vec![0u8; 32]);
    assert_eq!(store.read_cnt, 0);
    assert_eq!(store.write_cnt, 0);
}

#[test]
fn handshake_runs_are_deterministic() {
    // Two machines fed byte-identical inputs derive identical keys.
    let ephemeral = vec![3u8; 32];
    let shared_one = vec![5u8; 32];
    let shared_two = vec![9u8; 32];
    let run = || {
        let mut hs = Handshake::new(ephemeral.as_slice());
        hs.rehash_mut(b"server-ephemeral");
        hs.mix(shared_one.as_slice());
        hs.rehash_mut(b"server-static");
        hs.mix(shared_two.as_slice());
        let mut store = SessionStore::new();
        hs.finish(&mut store).unwrap();
        store
    };
    let a = run();
    let b = run();
    assert_eq!(a.encode_key, b.encode_key);
    assert_eq!(a.decode_key, b.decode_key);
    assert_eq!(a.read_cnt, 0);
    assert_eq!(a.write_cnt, 0);
}

#[test]
fn handshake_transcript_is_positionally_sensitive() {
    let ephemeral = vec![3u8; 32];
    let mut a = Handshake::new(ephemeral.as_slice());
    let mut b = Handshake::new(ephemeral.as_slice());
    a.rehash_mut(b"one");
    a.rehash_mut(b"two");
    b.rehash_mut(b"two");
    b.rehash_mut(b"one");
    assert_ne!(a.hash, b.hash);
}

#[test]
fn handshake_encrypt_decrypt_round_trip() {
    let ephemeral = vec![4u8; 32];
    let mut client = Handshake::new(ephemeral.as_slice());
    let mut server = Handshake::new(ephemeral.as_slice());
    client.mix(vec![8u8; 32].as_slice());
    server.mix(vec![8u8; 32].as_slice());
    let ct = client.encrypt(b"static key bytes").unwrap();
    let pt = server.decrypt(ct.as_slice()).unwrap();
    assert_eq!(pt, b"static key bytes".to_vec());
    // Both transcripts saw the same ciphertext, so they stay in step.
    assert_eq!(client.hash, server.hash);
    // Tampering with the ciphertext fails authentication.
    let mut tampered = client.encrypt(b"second").unwrap();
    tampered[0] ^= 1;
    let mut server2 = server;
    assert!(matches!(
        server2.decrypt(tampered.as_slice()),
        Err(Error::AesCipherFail)
    ));
}

#[test]
fn aes_gcm_rejects_bit_flips() {
    let key = vec![2u8; 32];
    let nonce = vec![0u8; 12];
    let ct = aes::encrypt_no_hash(key.as_slice(), nonce.as_slice(), b"hello").unwrap();
    let mut bad = ct.clone();
    bad[0] ^= 0x80;
    assert!(aes::decrypt_no_hash(key.as_slice(), nonce.as_slice(), ct.as_slice()).is_ok());
    assert!(matches!(
        aes::decrypt_no_hash(key.as_slice(), nonce.as_slice(), bad.as_slice()),
        Err(Error::AesCipherFail)
    ));
}

#[test]
fn int_to_bytes_is_big_endian() {
    assert_eq!(Handshake::int_to_bytes(0x01020304, 4), vec![1, 2, 3, 4]);
    assert_eq!(Handshake::int_to_bytes(5, 1), vec![5]);
    assert_eq!(Handshake::int_to_bytes(0x01020304, 3), vec![2, 3, 4]);
    assert_eq!(Handshake::int_to_bytes(7, 3), vec![0, 0, 7]);
}
