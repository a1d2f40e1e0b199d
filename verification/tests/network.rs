use ed25519_dalek::{Signer, SigningKey};
use protovcs::network::{
    parse_challenge, permissions_json, push_message, requested_permissions, sanitize_filename,
    JoinPayload, NetworkRegistry, NodeInfo, NodeRole, Permissions, PushPayload,
};
use sha2::{Digest, Sha256};

fn key(seed: u8) -> SigningKey {
    SigningKey::from_bytes(&[seed; 32])
}

fn pub_hex(k: &SigningKey) -> String {
    hex::encode(k.verifying_key().to_bytes())
}

fn sign_hex(k: &SigningKey, msg: &[u8]) -> String {
    hex::encode(k.sign(msg).to_bytes())
}

fn info(k: &SigningKey) -> NodeInfo {
    NodeInfo {
        pub_key: pub_hex(k),
        role: NodeRole::Member,
        address: "127.0.0.1".to_string(),
        permissions: Permissions::default(),
    }
}

/// Runs a full handshake and join for `k` at time `now`.
fn join(reg: &mut NetworkRegistry, k: &SigningKey, nonce: [u8; 32], now: u64) -> Result<String, String> {
    let reply = reg.issue_challenge(&nonce, now);
    let nonce_hex = parse_challenge(&reply).unwrap();
    let payload = JoinPayload {
        info: info(k),
        sig_hex: sign_hex(k, nonce_hex.as_bytes()),
        nonce_hex,
    };
    reg.join(payload, now)
}

fn role_of(reg: &NetworkRegistry, k: &SigningKey) -> Option<NodeRole> {
    reg.nodes.get(&pub_hex(k)).map(|n| n.role)
}

#[test]
fn first_joiner_becomes_host_then_members() {
    let mut reg = NetworkRegistry::new();
    let (a, b) = (key(1), key(2));
    assert_eq!(join(&mut reg, &a, [1; 32], 100), Ok("Accepted: You are the Host.".to_string()));
    assert_eq!(join(&mut reg, &b, [2; 32], 100), Ok("Accepted: Joined as Member.".to_string()));
    assert_eq!(role_of(&reg, &a), Some(NodeRole::Host));
    assert_eq!(role_of(&reg, &b), Some(NodeRole::Member));
    assert_eq!(reg.challenges.len(), 0);
}

#[test]
fn handshake_challenge_format() {
    let mut reg = NetworkRegistry::new();
    let reply = reg.issue_challenge(&[0xab; 32], 10);
    assert_eq!(reply, format!("CHALLENGE:{}", "ab".repeat(32)));
    assert_eq!(reg.challenges.get(&"ab".repeat(32)), Some(&70));
    assert_eq!(parse_challenge(&reply), Ok("ab".repeat(32)));
    assert_eq!(
        parse_challenge("HELLO"),
        Err("Invalid handshake response from host".to_string())
    );
    assert_eq!(
        parse_challenge("CHALLENGE:xyz"),
        Err("Invalid nonce hex from host".to_string())
    );
}

#[test]
fn reused_nonce_is_refused() {
    let mut reg = NetworkRegistry::new();
    let a = key(1);
    let reply = reg.issue_challenge(&[9; 32], 100);
    let nonce_hex = parse_challenge(&reply).unwrap();
    let payload = || JoinPayload {
        info: info(&a),
        sig_hex: sign_hex(&a, nonce_hex.as_bytes()),
        nonce_hex: nonce_hex.clone(),
    };
    assert!(reg.join(payload(), 100).is_ok());
    assert_eq!(
        reg.join(payload(), 100),
        Err("Invalid or reused handshake challenge".to_string())
    );
}

#[test]
fn expired_challenge_is_refused_and_consumed() {
    let mut reg = NetworkRegistry::new();
    let a = key(1);
    assert_eq!(join(&mut reg, &a, [3; 32], 100).is_ok(), true);
    let reply = reg.issue_challenge(&[4; 32], 100);
    let nonce_hex = parse_challenge(&reply).unwrap();
    let p = JoinPayload {
        info: info(&key(5)),
        sig_hex: sign_hex(&key(5), nonce_hex.as_bytes()),
        nonce_hex: nonce_hex.clone(),
    };
    assert_eq!(reg.join(p, 161), Err("Handshake challenge expired".to_string()));
    assert!(!reg.challenges.contains_key(&nonce_hex));
    assert_eq!(reg.nodes.len(), 1);
}

#[test]
fn join_rejects_bad_keys_and_signatures() {
    let mut reg = NetworkRegistry::new();
    let a = key(1);
    let mut attempt = |pub_key: String, sig_hex: String| {
        let reply = reg.issue_challenge(&[5; 32], 0);
        let nonce_hex = parse_challenge(&reply).unwrap();
        let mut i = info(&a);
        i.pub_key = pub_key;
        let sig_hex = if sig_hex.is_empty() { sign_hex(&key(9), nonce_hex.as_bytes()) } else { sig_hex };
        reg.join(JoinPayload { info: i, sig_hex, nonce_hex }, 0)
    };
    assert_eq!(attempt("zz".to_string(), "00".to_string()), Err("Invalid Public Key hex format".to_string()));
    assert_eq!(attempt("abcd".to_string(), "00".to_string()), Err("Public Key must be 32 bytes".to_string()));
    assert_eq!(attempt(pub_hex(&a), "xyz".to_string()), Err("Invalid Signature hex format".to_string()));
    assert_eq!(attempt(pub_hex(&a), "00".to_string()), Err("Signature must be 64 bytes".to_string()));
    assert_eq!(attempt(pub_hex(&a), String::new()), Err("Signature verification failed".to_string()));
}

#[test]
fn join_rejects_non_point_key() {
    let mut reg = NetworkRegistry::new();
    let mut bytes = [0u8; 32];
    for y in 2u8..=255 {
        bytes[0] = y;
        if ed25519_dalek::VerifyingKey::from_bytes(&bytes).is_err() {
            break;
        }
    }
    assert!(ed25519_dalek::VerifyingKey::from_bytes(&bytes).is_err());
    let reply = reg.issue_challenge(&[5; 32], 0);
    let nonce_hex = parse_challenge(&reply).unwrap();
    let mut i = info(&key(1));
    i.pub_key = hex::encode(bytes);
    let r = reg.join(JoinPayload { info: i, sig_hex: "00".repeat(64), nonce_hex }, 0);
    assert_eq!(r, Err("Invalid Ed25519 Public Key".to_string()));
}

#[test]
fn rejoining_host_is_demoted_to_member() {
    let mut reg = NetworkRegistry::new();
    let a = key(1);
    join(&mut reg, &a, [1; 32], 0).unwrap();
    assert_eq!(join(&mut reg, &a, [2; 32], 0), Ok("Accepted: Joined as Member.".to_string()));
    assert_eq!(role_of(&reg, &a), Some(NodeRole::Member));
}

#[test]
fn two_votes_promote_member_to_gate() {
    let mut reg = NetworkRegistry::new();
    let (a, b, c) = (key(1), key(2), key(3));
    join(&mut reg, &a, [1; 32], 0).unwrap();
    join(&mut reg, &b, [2; 32], 0).unwrap();
    join(&mut reg, &c, [3; 32], 0).unwrap();
    let cand = pub_hex(&c);
    let vote = |reg: &mut NetworkRegistry, voter: &SigningKey| {
        reg.vote(cand.clone(), pub_hex(voter), sign_hex(voter, cand.as_bytes()))
    };
    assert_eq!(vote(&mut reg, &a), Ok("Vote recorded. Total votes: 1".to_string()));
    assert_eq!(vote(&mut reg, &a), Ok("Vote recorded. Total votes: 1".to_string()));
    assert_eq!(role_of(&reg, &c), Some(NodeRole::Member));
    assert_eq!(
        vote(&mut reg, &b),
        Ok("Vote recorded. Node promoted to Gate (2 votes)".to_string())
    );
    assert_eq!(role_of(&reg, &c), Some(NodeRole::Gate));
    assert_eq!(vote(&mut reg, &c), Ok("Vote recorded. Total votes: 3".to_string()));
}

#[test]
fn vote_errors() {
    let mut reg = NetworkRegistry::new();
    let a = key(1);
    join(&mut reg, &a, [1; 32], 0).unwrap();
    assert_eq!(
        reg.vote("x".to_string(), pub_hex(&key(8)), "00".to_string()),
        Err("Voter is not a member of the network".to_string())
    );
    assert_eq!(
        reg.vote("x".to_string(), pub_hex(&a), sign_hex(&a, b"y")),
        Err("Invalid Vote Signature".to_string())
    );
    assert_eq!(
        reg.vote("x".to_string(), pub_hex(&a), "0".to_string()),
        Err("Invalid Signature".to_string())
    );
    assert_eq!(
        reg.vote("x".to_string(), pub_hex(&a), "00".to_string()),
        Err("Invalid Signature Length".to_string())
    );
    assert_eq!(reg.votes.len(), 0);
}

#[test]
fn only_host_may_shut_down() {
    let mut reg = NetworkRegistry::new();
    let (a, b) = (key(1), key(2));
    join(&mut reg, &a, [1; 32], 0).unwrap();
    join(&mut reg, &b, [2; 32], 0).unwrap();
    assert_eq!(
        reg.authorize_shutdown(&pub_hex(&a), &sign_hex(&a, b"SHUTDOWN")),
        Ok("Server shutting down in 5 seconds...".to_string())
    );
    assert_eq!(
        reg.authorize_shutdown(&pub_hex(&b), &sign_hex(&b, b"SHUTDOWN")),
        Err("Only the Host can shut down the server".to_string())
    );
    assert_eq!(
        reg.authorize_shutdown(&pub_hex(&a), &sign_hex(&a, b"STOP")),
        Err("Invalid Shutdown Signature".to_string())
    );
    assert_eq!(
        reg.authorize_shutdown(&pub_hex(&key(7)), &sign_hex(&a, b"SHUTDOWN")),
        Err("Requester not found".to_string())
    );
}

#[test]
fn permissions_text_and_update() {
    let perms = requested_permissions(Some(true), None, Some(false));
    assert_eq!(
        perms,
        Permissions { allow_read: true, allow_write: false, allow_remote_push: true }
    );
    assert_eq!(
        requested_permissions(None, None, None),
        Permissions { allow_read: true, allow_write: true, allow_remote_push: false }
    );
    let text = permissions_json(&perms);
    assert_eq!(text, r#"{"allow_read":true,"allow_write":false,"allow_remote_push":true}"#);
    let mut reg = NetworkRegistry::new();
    let a = key(1);
    join(&mut reg, &a, [1; 32], 0).unwrap();
    assert_eq!(
        reg.update_permissions(&pub_hex(&a), perms, &sign_hex(&a, text.as_bytes())),
        Ok("Permissions updated.".to_string())
    );
    assert_eq!(reg.nodes.get(&pub_hex(&a)).unwrap().permissions, perms);
    let other = key(4);
    assert_eq!(
        reg.update_permissions(&pub_hex(&other), perms, &sign_hex(&other, text.as_bytes())),
        Err("Node not found in registry".to_string())
    );
    assert_eq!(
        reg.update_permissions(&pub_hex(&a), Permissions::default(), &sign_hex(&a, text.as_bytes())),
        Err("Invalid Permission Signature".to_string())
    );
}

fn push_payload(sender: &SigningKey, filename: &str, content: &[u8], sent: &[u8]) -> PushPayload {
    let content_hash = hex::encode(Sha256::digest(content));
    let msg = push_message(filename, &content_hash);
    PushPayload {
        pub_key: pub_hex(sender),
        filename: filename.to_string(),
        content_hex: hex::encode(sent),
        sig_hex: sign_hex(sender, msg.as_bytes()),
        content_hash,
    }
}

fn push_network(allow: bool) -> (NetworkRegistry, SigningKey, SigningKey) {
    let mut reg = NetworkRegistry::new();
    let (me, sender) = (key(1), key(2));
    assert!(reg.register_self(pub_hex(&me), 3333));
    join(&mut reg, &sender, [2; 32], 0).unwrap();
    if allow {
        let p = Permissions { allow_read: true, allow_write: true, allow_remote_push: true };
        let text = permissions_json(&p);
        reg.update_permissions(&pub_hex(&me), p, &sign_hex(&me, text.as_bytes())).unwrap();
    }
    (reg, me, sender)
}

#[test]
fn authorized_push_is_accepted() {
    let (reg, me, sender) = push_network(true);
    let p = push_payload(&sender, "../notes.txt", b"hello", b"hello");
    let acc = reg.check_push(&pub_hex(&me), &p).ok().unwrap();
    assert_eq!(acc.content, b"hello".to_vec());
    assert_eq!(acc.file_name, "notes.txt");
    assert_eq!(
        acc.message,
        format!("File received: ../notes.txt (from {})", &pub_hex(&sender)[..16])
    );
}

#[test]
fn tampered_push_is_rejected() {
    let (reg, me, sender) = push_network(true);
    let p = push_payload(&sender, "f.txt", b"hello", b"THIS IS POST-SIGN TAMPERED CONTENT");
    let rej = reg.check_push(&pub_hex(&me), &p).err().unwrap();
    assert_eq!(rej.status, 400);
    assert_eq!(rej.message, "Content hash mismatch - possible tampering");
}

#[test]
fn push_refused_when_receiver_disallows() {
    let (reg, me, sender) = push_network(false);
    let p = push_payload(&sender, "f.txt", b"x", b"x");
    let rej = reg.check_push(&pub_hex(&me), &p).err().unwrap();
    assert_eq!((rej.status, rej.message.as_str()), (403, "Remote push not allowed"));
}

#[test]
fn push_refused_from_unregistered_sender() {
    let (reg, me, _) = push_network(true);
    let p = push_payload(&key(9), "f.txt", b"x", b"x");
    let rej = reg.check_push(&pub_hex(&me), &p).err().unwrap();
    assert_eq!((rej.status, rej.message.as_str()), (403, "Sender not registered"));
    let rej = reg.check_push(&pub_hex(&key(9)), &p).err().unwrap();
    assert_eq!((rej.status, rej.message.as_str()), (500, "Receiver not in registry"));
}

#[test]
fn push_with_wrong_signature_or_bad_content() {
    let (reg, me, sender) = push_network(true);
    let mut p = push_payload(&sender, "f.txt", b"x", b"x");
    p.filename = "g.txt".to_string();
    let rej = reg.check_push(&pub_hex(&me), &p).err().unwrap();
    assert_eq!((rej.status, rej.message.as_str()), (401, "Invalid signature"));
    let mut p = push_payload(&sender, "f.txt", b"x", b"x");
    p.content_hex = "0g".to_string();
    let rej = reg.check_push(&pub_hex(&me), &p).err().unwrap();
    assert_eq!(
        (rej.status, rej.message.as_str()),
        (400, "Invalid content hex: Invalid character 'g' at position 1")
    );
    let mut p = push_payload(&sender, "f.txt", b"x", b"x");
    p.sig_hex = "00".to_string();
    let rej = reg.check_push(&pub_hex(&me), &p).err().unwrap();
    assert_eq!((rej.status, rej.message.as_str()), (400, "Signature must be 64 bytes"));
}

#[test]
fn register_self_once() {
    let mut reg = NetworkRegistry::new();
    assert!(reg.register_self("k".to_string(), 3333));
    assert!(!reg.register_self("k".to_string(), 4444));
    let n = reg.nodes.get(&"k".to_string()).unwrap();
    assert_eq!(n.address, "127.0.0.1:3333");
    assert_eq!(n.role, NodeRole::Member);
    assert_eq!(n.permissions, Permissions::default());
}

#[test]
fn stored_file_names_are_sanitized() {
    assert_eq!(sanitize_filename("../../etc/passwd"), "passwd");
    assert_eq!(sanitize_filename("my file!.txt"), "my_file_.txt");
    assert_eq!(sanitize_filename("dir/"), "dir");
    assert_eq!(sanitize_filename(".."), "unnamed_file");
    assert_eq!(sanitize_filename(""), "unnamed_file");
    assert_eq!(sanitize_filename("/"), "unnamed_file");
    assert_eq!(sanitize_filename("naïve-ok_1.rs"), "naïve-ok_1.rs");
}

#[test]
fn sanitized_names_are_plain_and_stable() {
    assert_eq!(sanitize_filename("."), "unnamed_file");
    assert_eq!(sanitize_filename("a/."), "a");
    assert_eq!(sanitize_filename("a/.."), "unnamed_file");
    assert_eq!(sanitize_filename("x\\y:z"), "x_y_z");
    for f in ["../../etc/passwd", "my file!.txt", ".", "..", "", "/", "a b/c?d", "naïve-ok_1.rs", "...", "-_."] {
        let once = sanitize_filename(f);
        assert!(!once.is_empty() && once != "." && once != "..");
        assert!(once.chars().all(|c| c.is_alphanumeric() || c == '.' || c == '-' || c == '_'));
        assert_eq!(sanitize_filename(&once), once);
    }
}
