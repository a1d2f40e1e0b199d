use vstd::prelude::*;
use ed25519_dalek::{Signer, Verifier};

use crate::codec::{hex_decode, hex_decoded, hex_encode, hex_lower, law_hex_roundtrip};
use crate::text::owned;
use vstd::utf8::encode_utf8;

verus! {

/// Whether 32 bytes are the compressed form of a point that `VerifyingKey::from_bytes` accepts.
pub uninterp spec fn ed25519_key_valid(key: Seq<u8>) -> bool;

/// Whether `VerifyingKey::verify` accepts signature `sig` on message `msg` under public key `key`.
pub uninterp spec fn ed25519_signature_valid(key: Seq<u8>, msg: Seq<u8>, sig: Seq<u8>) -> bool;

/// Trusted: `ed25519_dalek::VerifyingKey::from_bytes` on 32 bytes either accepts or rejects
/// them, depending on the bytes alone (named `ed25519_key_valid`).
#[verifier::external_body]
fn verifying_key_accepts(key: &[u8]) -> (r: bool)
    requires
        key@.len() == 32,
    ensures
        r == ed25519_key_valid(key@),
{
    let key: [u8; 32] = key.try_into().expect("32 bytes");
    ed25519_dalek::VerifyingKey::from_bytes(&key).is_ok()
}

/// Trusted: `VerifyingKey::verify` (with the key rebuilt by `VerifyingKey::from_bytes` and the
/// signature by `Signature::from_bytes`) accepts or rejects depending on key, message and
/// signature bytes alone (named `ed25519_signature_valid`).
#[verifier::external_body]
fn signature_verifies(key: &[u8], msg: &[u8], sig: &[u8]) -> (r: bool)
    requires
        key@.len() == 32,
        sig@.len() == 64,
        ed25519_key_valid(key@),
    ensures
        r == ed25519_signature_valid(key@, msg@, sig@),
{
    let key: [u8; 32] = key.try_into().expect("32 bytes");
    let sig: [u8; 64] = sig.try_into().expect("64 bytes");
    match ed25519_dalek::VerifyingKey::from_bytes(&key) {
        Ok(vk) => vk.verify(msg, &ed25519_dalek::Signature::from_bytes(&sig)).is_ok(),
        Err(_) => false,
    }
}

/// Why hex text is not a usable public key.
#[derive(PartialEq, Eq, Structural, Clone, Copy, Debug)]
pub enum KeyFault {
    /// Not hex.
    BadHex,
    /// Not 32 bytes.
    BadLength,
    /// Not a curve point.
    BadPoint,
}

/// Why hex text is not a usable signature.
#[derive(PartialEq, Eq, Structural, Clone, Copy, Debug)]
pub enum SigFault {
    /// Not hex.
    BadHex,
    /// Not 64 bytes.
    BadLength,
}

/// The public key bytes that hex text denotes, or why it denotes none.
pub open spec fn key_bytes_of(hex: Seq<char>) -> Result<Seq<u8>, KeyFault> {
    match hex_decoded(encode_utf8(hex)) {
        Err(_) => Err(KeyFault::BadHex),
        Ok(b) => if b.len() != 32 {
            Err(KeyFault::BadLength)
        } else if !ed25519_key_valid(b) {
            Err(KeyFault::BadPoint)
        } else {
            Ok(b)
        },
    }
}

/// The signature bytes that hex text denotes, or why it denotes none.
pub open spec fn sig_bytes_of(hex: Seq<char>) -> Result<Seq<u8>, SigFault> {
    match hex_decoded(encode_utf8(hex)) {
        Err(_) => Err(SigFault::BadHex),
        Ok(b) => if b.len() != 64 {
            Err(SigFault::BadLength)
        } else {
            Ok(b)
        },
    }
}

/// Decodes a hex public key and checks that it is a valid Ed25519 point.
pub fn decode_key(hex: &String) -> (r: Result<Vec<u8>, KeyFault>)
    ensures
        match r {
            Ok(b) => key_bytes_of(hex@) == Ok::<Seq<u8>, KeyFault>(b@),
            Err(f) => key_bytes_of(hex@) == Err::<Seq<u8>, KeyFault>(f),
        },
{
    match hex_decode(hex.as_str()) {
        Err(_) => Err(KeyFault::BadHex),
        Ok(b) => {
            if b.len() != 32 {
                Err(KeyFault::BadLength)
            } else if !verifying_key_accepts(b.as_slice()) {
                Err(KeyFault::BadPoint)
            } else {
                Ok(b)
            }
        },
    }
}

/// Decodes a hex signature of 64 bytes.
pub fn decode_sig(hex: &String) -> (r: Result<Vec<u8>, SigFault>)
    ensures
        match r {
            Ok(b) => sig_bytes_of(hex@) == Ok::<Seq<u8>, SigFault>(b@),
            Err(f) => sig_bytes_of(hex@) == Err::<Seq<u8>, SigFault>(f),
        },
{
    match hex_decode(hex.as_str()) {
        Err(_) => Err(SigFault::BadHex),
        Ok(b) => {
            if b.len() != 64 {
                Err(SigFault::BadLength)
            } else {
                Ok(b)
            }
        },
    }
}

/// Checks an Ed25519 signature on `msg`, the key and signature already decoded.
pub fn verify_signature(key: &Vec<u8>, msg: &[u8], sig: &Vec<u8>) -> (r: bool)
    requires
        key@.len() == 32,
        sig@.len() == 64,
        ed25519_key_valid(key@),
    ensures
        r == ed25519_signature_valid(key@, msg@, sig@),
{
    signature_verifies(key.as_slice(), msg, sig.as_slice())
}

/// The public key (compressed point) that `SigningKey::from_bytes` derives from a 32-byte secret.
pub uninterp spec fn ed25519_public_key(secret: Seq<u8>) -> Seq<u8>;

/// The signature that `SigningKey::sign` makes on `msg` with a 32-byte secret.
pub uninterp spec fn ed25519_signature(secret: Seq<u8>, msg: Seq<u8>) -> Seq<u8>;

/// Trusted: `SigningKey::from_bytes(secret).verifying_key()` depends on the secret alone
/// (named `ed25519_public_key`); it is the compression of a curve point, so 32 bytes that
/// `VerifyingKey::from_bytes` accepts.
#[verifier::external_body]
fn public_key_of(secret: &[u8]) -> (r: Vec<u8>)
    requires
        secret@.len() == 32,
    ensures
        r@ == ed25519_public_key(secret@),
        r@.len() == 32,
        ed25519_key_valid(r@),
{
    let secret: [u8; 32] = secret.try_into().expect("32 bytes");
    ed25519_dalek::SigningKey::from_bytes(&secret).verifying_key().to_bytes().to_vec()
}

/// Trusted: `SigningKey::from_bytes(secret).sign(msg)` is deterministic Ed25519 (named
/// `ed25519_signature`), 64 bytes, and `verify` accepts it under the key's public key.
#[verifier::external_body]
fn sign_bytes(secret: &[u8], msg: &[u8]) -> (r: Vec<u8>)
    requires
        secret@.len() == 32,
    ensures
        r@ == ed25519_signature(secret@, msg@),
        r@.len() == 64,
        ed25519_signature_valid(ed25519_public_key(secret@), msg@, r@),
{
    let secret: [u8; 32] = secret.try_into().expect("32 bytes");
    ed25519_dalek::SigningKey::from_bytes(&secret).sign(msg).to_bytes().to_vec()
}

/// A node's Ed25519 identity: its 32-byte secret key.
pub struct Identity {
    secret: Vec<u8>,
}

impl Identity {
    /// The secret key bytes.
    pub closed spec fn secret(&self) -> Seq<u8> {
        self.secret@
    }

    #[verifier::type_invariant]
    closed spec fn has_key_length(&self) -> bool {
        self.secret@.len() == 32
    }

    /// The secret key bytes, as they are stored in the identity file.
    pub fn secret_bytes(&self) -> (r: Vec<u8>)
        ensures
            r@ == self.secret(),
            r@.len() == 32,
    {
        proof {
            use_type_invariant(self);
        }
        self.secret.clone()
    }

    /// The public key as lower-case hex: how the node is named in the network.
    pub fn public_key_hex(&self) -> (r: String)
        ensures
            r@ == hex_lower(ed25519_public_key(self.secret())),
            key_bytes_of(r@) == Ok::<Seq<u8>, KeyFault>(ed25519_public_key(self.secret())),
    {
        proof {
            use_type_invariant(self);
        }
        let key = public_key_of(self.secret.as_slice());
        proof {
            law_hex_roundtrip(key@);
        }
        hex_encode(key.as_slice())
    }

    /// Signs `msg`, the signature as lower-case hex; it decodes to a signature that
    /// verifies under this identity's public key.
    pub fn sign_hex(&self, msg: &[u8]) -> (r: String)
        ensures
            r@ == hex_lower(ed25519_signature(self.secret(), msg@)),
            sig_bytes_of(r@) == Ok::<Seq<u8>, SigFault>(ed25519_signature(self.secret(), msg@)),
            ed25519_signature_valid(
                ed25519_public_key(self.secret()),
                msg@,
                ed25519_signature(self.secret(), msg@),
            ),
    {
        proof {
            use_type_invariant(self);
        }
        let sig = sign_bytes(self.secret.as_slice(), msg);
        proof {
            law_hex_roundtrip(sig@);
        }
        hex_encode(sig.as_slice())
    }
}

/// Reads an identity from the bytes of its key file: exactly 32 bytes of secret key.
pub fn identity_from_bytes(bytes: Vec<u8>) -> (r: Result<Identity, String>)
    ensures
        match r {
            Ok(id) => bytes@.len() == 32 && id.secret() == bytes@,
            Err(m) => bytes@.len() != 32 && m@ == "Invalid key length"@,
        },
{
    if bytes.len() != 32 {
        Err(owned("Invalid key length"))
    } else {
        Ok(Identity { secret: bytes })
    }
}

} // verus!
