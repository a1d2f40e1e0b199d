use ed25519_dalek::{Signer, SigningKey};
use protovcs::crypto::identity_from_bytes;
use protovcs::network::{
    parse_challenge, push_message, JoinPayload, NetworkRegistry, NodeInfo, NodeRole, Permissions,
    PushPayload,
};
use sha2::{Digest, Sha256};

fn secret_from_hex(h: &str) -> Vec<u8> {
    hex::decode(h).unwrap()
}

#[test]
fn identity_needs_thirty_two_bytes() {
    match identity_from_bytes(vec![1u8; 31]) {
        Err(m) => assert_eq!(m, "Invalid key length"),
        Ok(_) => panic!("accepted 31 bytes"),
    }
    assert!(identity_from_bytes(vec![1u8; 33]).is_err());
    assert!(identity_from_bytes(Vec::new()).is_err());
    let id = identity_from_bytes(vec![7u8; 32]).ok().unwrap();
    assert_eq!(id.secret_bytes(), vec![7u8; 32]);
}

#[test]
fn identity_public_key_and_signature_match_known_vector() {
    let secret = secret_from_hex("9d61b19deffd5a60ba844af492ec2cc44449c5697b326919703bac031cae7f60");
    let id = identity_from_bytes(secret).ok().unwrap();
    assert_eq!(
        id.public_key_hex(),
        "d75a980182b10ab7d54bfed3c964073a0ee172f3daa62325af021a68f707511a"
    );
    assert_eq!(
        id.sign_hex(b""),
        "e5564300c360ac729086e2cc806e828a84877f1eb8e5d974d873e065224901555fb8821590a33bacc61e39701cf9b46bd25bf5f0595bbe24655141438e7a100b"
    );
}

#[test]
fn identity_signs_as_the_signing_key_does() {
    let id = identity_from_bytes(vec![42u8; 32]).ok().unwrap();
    let k = SigningKey::from_bytes(&[42u8; 32]);
    assert_eq!(id.public_key_hex(), hex::encode(k.verifying_key().to_bytes()));
    for msg in [&b"SHUTDOWN"[..], b"hello", b""] {
        assert_eq!(id.sign_hex(msg), hex::encode(k.sign(msg).to_bytes()));
    }
    assert_ne!(id.sign_hex(b"a"), id.sign_hex(b"b"));
}

fn node(id: &protovcs::crypto::Identity) -> NodeInfo {
    NodeInfo {
        pub_key: id.public_key_hex(),
        role: NodeRole::Member,
        address: "127.0.0.1".to_string(),
        permissions: Permissions::default(),
    }
}

#[test]
fn identities_join_vote_and_push() {
    let host = identity_from_bytes(vec![1u8; 32]).ok().unwrap();
    let a = identity_from_bytes(vec![2u8; 32]).ok().unwrap();
    let b = identity_from_bytes(vec![3u8; 32]).ok().unwrap();
    let mut reg = NetworkRegistry::new();
    for (i, id) in [&host, &a, &b].iter().enumerate() {
        let reply = reg.issue_challenge(&[i as u8 + 10; 32], 100);
        let nonce_hex = parse_challenge(&reply).unwrap();
        let payload = JoinPayload { info: node(id), sig_hex: id.sign_hex(nonce_hex.as_bytes()), nonce_hex };
        assert!(reg.join(payload, 100).is_ok());
    }
    assert_eq!(reg.nodes.get(&host.public_key_hex()).map(|n| n.role), Some(NodeRole::Host));
    let cand = b.public_key_hex();
    for voter in [&host, &a] {
        assert!(reg
            .vote(cand.clone(), voter.public_key_hex(), voter.sign_hex(cand.as_bytes()))
            .is_ok());
    }
    assert_eq!(reg.nodes.get(&cand).map(|n| n.role), Some(NodeRole::Gate));
    assert!(reg.authorize_shutdown(&host.public_key_hex(), &host.sign_hex(b"SHUTDOWN")).is_ok());

    let receiver = host.public_key_hex();
    let mut perms = Permissions::default();
    perms.allow_remote_push = true;
    let sig = host.sign_hex(protovcs::network::permissions_json(&perms).as_bytes());
    assert!(reg.update_permissions(&receiver, perms, &sig).is_ok());
    let content = b"file body";
    let hash = hex::encode(Sha256::digest(content));
    let payload = PushPayload {
        pub_key: a.public_key_hex(),
        filename: "notes.txt".to_string(),
        content_hex: hex::encode(content),
        sig_hex: a.sign_hex(push_message("notes.txt", &hash).as_bytes()),
        content_hash: hash,
    };
    let accepted = reg.check_push(&receiver, &payload).ok().unwrap();
    assert_eq!(accepted.content, content.to_vec());
}
