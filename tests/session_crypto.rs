use crypto_box::aead::Aead;
use git_credential_keepassxc::protocol::ProtocolError;
use git_credential_keepassxc::session::{exchange_keys, new_session_secret, start_session, SessionError};

fn host() -> (crypto_box::SecretKey, Vec<u8>) {
    let sk = crypto_box::SecretKey::from([5u8; 32]);
    let pk = sk.public_key().as_bytes().to_vec();
    (sk, pk)
}

#[test]
fn key_exchange_needs_a_key() {
    assert_eq!(exchange_keys(None), Err(SessionError::KeyExchange));
    assert_eq!(exchange_keys(Some(vec![1u8; 31])), Err(SessionError::KeyExchange));
    assert_eq!(exchange_keys(Some(vec![1u8; 32])), Ok(vec![1u8; 32]));
    assert!(matches!(start_session("id".to_string(), vec![2u8; 32], None), Err(SessionError::KeyExchange)));
}

#[test]
fn request_opens_at_the_counterpart_and_reply_opens_here() {
    let (host_sk, host_pk) = host();
    let secret = new_session_secret();
    assert_eq!(secret.len(), 32);
    let session = match start_session("client-1".to_string(), secret, Some(host_pk)) {
        Ok(s) => s,
        Err(e) => panic!("key exchange refused: {e:?}"),
    };
    let session_pk = session.session_public();
    let expected_pk = crypto_box::SecretKey::from(<[u8; 32]>::try_from(session.session_secret.as_slice()).unwrap())
        .public_key()
        .as_bytes()
        .to_vec();
    assert_eq!(session_pk, expected_pk);

    let payload = br#"{"action":"get-databasehash"}"#.to_vec();
    let envelope = session.encrypt_request(&payload);
    assert_eq!(envelope.client_id, "client-1");
    assert_eq!(envelope.nonce.len(), 24);
    assert_ne!(envelope.message, payload);

    let session_public = crypto_box::PublicKey::from(<[u8; 32]>::try_from(session_pk.as_slice()).unwrap());
    let host_box = crypto_box::SalsaBox::new(&session_public, &host_sk);
    let opened = host_box
        .decrypt(crypto_box::Nonce::from_slice(&envelope.nonce), envelope.message.as_slice())
        .unwrap();
    assert_eq!(opened, payload);

    let mut reply_nonce = envelope.nonce.clone();
    reply_nonce[0] = reply_nonce[0].wrapping_add(1);
    let reply = br#"{"success":"true"}"#.to_vec();
    let sealed = host_box.encrypt(crypto_box::Nonce::from_slice(&reply_nonce), reply.as_slice()).unwrap();
    assert_eq!(session.decrypt_reply(&envelope.nonce, &reply_nonce, &sealed), Ok(reply));
    assert_eq!(session.decrypt_reply(&envelope.nonce, &envelope.nonce, &sealed), Err(ProtocolError::ReplayedNonce));
    assert_eq!(session.decrypt_reply(&envelope.nonce, &vec![1, 2], &sealed), Err(ProtocolError::Malformed));
    let mut tampered = sealed.clone();
    tampered[0] ^= 1;
    assert_eq!(session.decrypt_reply(&envelope.nonce, &reply_nonce, &tampered), Err(ProtocolError::Malformed));
}
