use vstd::prelude::*;

use crate::codec::{json_members, json_object, json_str, json_plain_char, lemma_json_escaped_plain, law_hex_roundtrip, hex_encode, hex_lower, hex_decode, hex_decoded, hex_error_message, hex_error_text, content_hash, content_hash_of, HexError};
use crate::crypto::{
    decode_key, decode_sig, verify_signature, key_bytes_of, sig_bytes_of, ed25519_signature_valid,
    KeyFault, SigFault,
};
use crate::strmap::{StrMap, keys_distinct, lemma_pairs_map_at, has_key};
use crate::text::{owned, join2, join3, decimal, decimal_string, chars_of, char_count, take_chars, push_char};
use vstd::utf8::encode_utf8;

verus! {

/// What a node allows others to do.
#[derive(Clone, Copy, Debug, PartialEq, Eq, Structural)]
pub struct Permissions {
    pub allow_read: bool,
    pub allow_write: bool,
    pub allow_remote_push: bool,
}

impl Default for Permissions {
    fn default() -> (r: Permissions)
        ensures
            !r.allow_read && !r.allow_write && !r.allow_remote_push,
    {
        Permissions { allow_read: false, allow_write: false, allow_remote_push: false }
    }
}

/// A node's standing in the network.
#[derive(Clone, Copy, Debug, PartialEq, Eq, Structural)]
pub enum NodeRole {
    Host,
    Gate,
    Member,
}

/// What the registry knows of a node.
#[derive(Debug)]
pub struct NodeInfo {
    pub pub_key: String,
    pub role: NodeRole,
    pub address: String,
    pub permissions: Permissions,
}

/// A request to join: the node's description, signed over the host's nonce.
#[derive(Debug)]
pub struct JoinPayload {
    pub info: NodeInfo,
    pub sig_hex: String,
    pub nonce_hex: String,
}

/// A signed file push.
#[derive(Debug)]
pub struct PushPayload {
    pub pub_key: String,
    pub filename: String,
    pub content_hex: String,
    pub sig_hex: String,
    pub content_hash: String,
}

/// The registry of nodes, votes and outstanding handshake challenges.
pub struct NetworkRegistry {
    pub nodes: StrMap<NodeInfo>,
    pub votes: StrMap<StrMap<()>>,
    pub challenges: StrMap<u64>,
}

/// How long a handshake challenge stays valid, in seconds.
pub const CHALLENGE_EXPIRY_SECS: u64 = 60;

/// True when some node of the map is the Host.
pub open spec fn has_host(nodes: Map<Seq<char>, NodeInfo>) -> bool {
    exists|k: Seq<char>| #[trigger] nodes.contains_key(k) && nodes[k].role == NodeRole::Host
}

/// True when no two nodes of the map are Host.
pub open spec fn at_most_one_host(nodes: Map<Seq<char>, NodeInfo>) -> bool {
    forall|a: Seq<char>, b: Seq<char>|
        #[trigger] nodes.contains_key(a) && #[trigger] nodes.contains_key(b) && nodes[a].role
            == NodeRole::Host && nodes[b].role == NodeRole::Host ==> a == b
}

/// `info` with its role replaced.
pub open spec fn with_role(info: NodeInfo, role: NodeRole) -> NodeInfo {
    NodeInfo { pub_key: info.pub_key, role, address: info.address, permissions: info.permissions }
}

/// `info` with its permissions replaced.
pub open spec fn with_permissions(info: NodeInfo, permissions: Permissions) -> NodeInfo {
    NodeInfo { pub_key: info.pub_key, role: info.role, address: info.address, permissions }
}

/// The role a joining node gets: Host when there is none yet, Member otherwise.
pub open spec fn joined_role(nodes: Map<Seq<char>, NodeInfo>) -> NodeRole {
    if has_host(nodes) {
        NodeRole::Member
    } else {
        NodeRole::Host
    }
}

/// Why a join request is refused, if it is: challenge first, then key, then signature.
pub open spec fn join_error(challenges: Map<Seq<char>, u64>, p: JoinPayload, now: u64) -> Option<Seq<char>> {
    let n = p.nonce_hex@;
    if !challenges.contains_key(n) {
        Some("Invalid or reused handshake challenge"@)
    } else if now > challenges[n] {
        Some("Handshake challenge expired"@)
    } else {
        match key_bytes_of(p.info.pub_key@) {
            Err(KeyFault::BadHex) => Some("Invalid Public Key hex format"@),
            Err(KeyFault::BadLength) => Some("Public Key must be 32 bytes"@),
            Err(KeyFault::BadPoint) => Some("Invalid Ed25519 Public Key"@),
            Ok(k) => match sig_bytes_of(p.sig_hex@) {
                Err(SigFault::BadHex) => Some("Invalid Signature hex format"@),
                Err(SigFault::BadLength) => Some("Signature must be 64 bytes"@),
                Ok(s) => if !ed25519_signature_valid(k, encode_utf8(n), s) {
                    Some("Signature verification failed"@)
                } else {
                    None
                },
            },
        }
    }
}

/// The answer to an accepted join.
pub open spec fn join_message(nodes: Map<Seq<char>, NodeInfo>) -> Seq<char> {
    if has_host(nodes) {
        "Accepted: Joined as Member."@
    } else {
        "Accepted: You are the Host."@
    }
}


/// The voters recorded for `candidate` before a vote.
pub open spec fn voters_before(votes: Map<Seq<char>, StrMap<()>>, candidate: Seq<char>) -> Map<Seq<char>, ()> {
    if votes.contains_key(candidate) {
        votes[candidate].map()
    } else {
        Map::empty()
    }
}

/// How many distinct voters `candidate` has once `voter` is counted.
pub open spec fn vote_count(votes: Map<Seq<char>, StrMap<()>>, candidate: Seq<char>, voter: Seq<char>) -> nat {
    let ps = if votes.contains_key(candidate) {
        votes[candidate].pairs()
    } else {
        Seq::empty()
    };
    ps.len() + if has_key(ps, voter) {
        0nat
    } else {
        1nat
    }
}

/// Why a vote is refused, if it is: membership first, then key, then signature.
pub open spec fn vote_error(
    nodes: Map<Seq<char>, NodeInfo>,
    candidate: Seq<char>,
    voter: Seq<char>,
    sig_hex: Seq<char>,
) -> Option<Seq<char>> {
    if !nodes.contains_key(voter) {
        Some("Voter is not a member of the network"@)
    } else {
        match key_bytes_of(voter) {
            Err(KeyFault::BadHex) => Some("Invalid Voter Key"@),
            Err(KeyFault::BadLength) => Some("Invalid Voter Key Length"@),
            Err(KeyFault::BadPoint) => Some("Invalid Verify Key"@),
            Ok(k) => match sig_bytes_of(sig_hex) {
                Err(SigFault::BadHex) => Some("Invalid Signature"@),
                Err(SigFault::BadLength) => Some("Invalid Signature Length"@),
                Ok(s) => if !ed25519_signature_valid(k, encode_utf8(candidate), s) {
                    Some("Invalid Vote Signature"@)
                } else {
                    None
                },
            },
        }
    }
}

/// A vote promotes its candidate to Gate when it brings more than one vote to a Member.
pub open spec fn promotes(nodes: Map<Seq<char>, NodeInfo>, candidate: Seq<char>, count: nat) -> bool {
    count > 1 && nodes.contains_key(candidate) && nodes[candidate].role == NodeRole::Member
}

/// The registry's nodes after a recorded vote that brings `candidate` to `count` voters.
pub open spec fn vote_nodes(nodes: Map<Seq<char>, NodeInfo>, candidate: Seq<char>, count: nat) -> Map<Seq<char>, NodeInfo> {
    if promotes(nodes, candidate, count) {
        nodes.insert(candidate, with_role(nodes[candidate], NodeRole::Gate))
    } else {
        nodes
    }
}

/// The answer to a recorded vote.
pub open spec fn vote_message(promoted: bool, count: nat) -> Seq<char> {
    if promoted {
        "Vote recorded. Node promoted to Gate ("@ + decimal(count) + " votes)"@
    } else {
        "Vote recorded. Total votes: "@ + decimal(count)
    }
}

/// Why a shutdown request is refused, if it is: role first, then key, then signature over `SHUTDOWN`.
pub open spec fn shutdown_error(nodes: Map<Seq<char>, NodeInfo>, requester: Seq<char>, sig_hex: Seq<char>) -> Option<Seq<char>> {
    if !nodes.contains_key(requester) {
        Some("Requester not found"@)
    } else if nodes[requester].role != NodeRole::Host {
        Some("Only the Host can shut down the server"@)
    } else {
        match key_bytes_of(requester) {
            Err(KeyFault::BadHex) => Some("Invalid Requester Key"@),
            Err(KeyFault::BadLength) => Some("Invalid Key Length"@),
            Err(KeyFault::BadPoint) => Some("Invalid Verify Key"@),
            Ok(k) => match sig_bytes_of(sig_hex) {
                Err(SigFault::BadHex) => Some("Invalid Signature"@),
                Err(SigFault::BadLength) => Some("Invalid Signature Length"@),
                Ok(s) => if !ed25519_signature_valid(k, encode_utf8("SHUTDOWN"@), s) {
                    Some("Invalid Shutdown Signature"@)
                } else {
                    None
                },
            },
        }
    }
}

/// `true` or `false` as JSON writes them.
pub open spec fn bool_json(b: bool) -> Seq<char> {
    if b {
        "true"@
    } else {
        "false"@
    }
}

/// The compact JSON of a permission set, fields in declaration order: the text that is signed.
pub open spec fn permissions_json_text(p: Permissions) -> Seq<char> {
    "{\"allow_read\":"@ + bool_json(p.allow_read) + ",\"allow_write\":"@ + bool_json(p.allow_write)
        + ",\"allow_remote_push\":"@ + bool_json(p.allow_remote_push) + "}"@
}

/// Why a permission change is refused, if it is: key, signature, then membership.
pub open spec fn permissions_error(
    nodes: Map<Seq<char>, NodeInfo>,
    requester: Seq<char>,
    perms: Permissions,
    sig_hex: Seq<char>,
) -> Option<Seq<char>> {
    match key_bytes_of(requester) {
        Err(KeyFault::BadHex) => Some("Invalid Requester Key"@),
        Err(KeyFault::BadLength) => Some("Invalid Key Length"@),
        Err(KeyFault::BadPoint) => Some("Invalid Verify Key"@),
        Ok(k) => match sig_bytes_of(sig_hex) {
            Err(SigFault::BadHex) => Some("Invalid Signature"@),
            Err(SigFault::BadLength) => Some("Invalid Signature Length"@),
            Ok(s) => if !ed25519_signature_valid(k, encode_utf8(permissions_json_text(perms)), s) {
                Some("Invalid Permission Signature"@)
            } else if !nodes.contains_key(requester) {
                Some("Node not found in registry"@)
            } else {
                None
            },
        },
    }
}

/// The text a pusher signs: file name, a bar, content hash.
pub open spec fn push_message_text(filename: Seq<char>, content_hash: Seq<char>) -> Seq<char> {
    filename + "|"@ + content_hash
}

/// A push the receiver accepts: the decoded content, the name to store it under, the answer.
pub struct PushAccepted {
    pub content: Vec<u8>,
    pub file_name: String,
    pub message: String,
}

/// A push the receiver refuses: the HTTP status and the answer.
pub struct PushRejected {
    pub status: u16,
    pub message: String,
}

/// Why a push is refused, if it is, as (HTTP status, answer): receiver permission and
/// sender registration first, then key, signature over name and hash, content decoding,
/// and last the content hash.
pub open spec fn push_rejection(nodes: Map<Seq<char>, NodeInfo>, receiver: Seq<char>, p: PushPayload) -> Option<(u16, Seq<char>)> {
    if !nodes.contains_key(receiver) {
        Some((500u16, "Receiver not in registry"@))
    } else if !nodes[receiver].permissions.allow_remote_push {
        Some((403u16, "Remote push not allowed"@))
    } else if !nodes.contains_key(p.pub_key@) {
        Some((403u16, "Sender not registered"@))
    } else {
        match key_bytes_of(p.pub_key@) {
            Err(KeyFault::BadHex) => Some((400u16, "Invalid pubkey hex"@)),
            Err(KeyFault::BadLength) => Some((400u16, "Pubkey must be 32 bytes"@)),
            Err(KeyFault::BadPoint) => Some((400u16, "Invalid Ed25519 public key"@)),
            Ok(k) => match sig_bytes_of(p.sig_hex@) {
                Err(SigFault::BadHex) => Some((400u16, "Invalid signature hex"@)),
                Err(SigFault::BadLength) => Some((400u16, "Signature must be 64 bytes"@)),
                Ok(s) => if !ed25519_signature_valid(
                    k,
                    encode_utf8(push_message_text(p.filename@, p.content_hash@)),
                    s,
                ) {
                    Some((401u16, "Invalid signature"@))
                } else {
                    match hex_decoded(encode_utf8(p.content_hex@)) {
                        Err(e) => Some((400u16, "Invalid content hex: "@ + hex_error_text(e))),
                        Ok(c) => if content_hash_of(c) != p.content_hash@ {
                            Some((400u16, "Content hash mismatch - possible tampering"@))
                        } else {
                            None
                        },
                    }
                },
            },
        }
    }
}

/// Whether a non-ASCII character counts as alphanumeric for `char::is_alphanumeric`.
pub uninterp spec fn char_is_alphanumeric(c: char) -> bool;

/// `char::is_alphanumeric`: among ASCII characters exactly the letters and digits; beyond
/// ASCII, the Unicode Alphabetic or Numeric characters.
pub open spec fn alphanumeric(c: char) -> bool {
    if (c as u32) < 128 {
        ('a' <= c <= 'z') || ('A' <= c <= 'Z') || ('0' <= c <= '9')
    } else {
        char_is_alphanumeric(c)
    }
}

/// Trusted: `char::is_alphanumeric` is a fixed property of the character; on ASCII it holds
/// of the letters and digits only.
#[verifier::external_body]
fn is_alphanumeric(c: char) -> (r: bool)
    ensures
        r == alphanumeric(c),
        (c as u32) >= 128 ==> r == char_is_alphanumeric(c),
{
    c.is_alphanumeric()
}

/// The last component of a path, as `Path::file_name` finds it.
pub uninterp spec fn path_file_name(p: Seq<char>) -> Option<Seq<char>>;

/// A single non-empty path component other than `.` and `..`.
pub open spec fn single_component(n: Seq<char>) -> bool {
    n.len() > 0 && n != "."@ && n != ".."@ && !n.contains('/')
}

/// A character kept as it is in a stored file name.
pub open spec fn safe_name_char(c: char) -> bool {
    alphanumeric(c) || c == '.' || c == '-' || c == '_'
}

/// A single component made of alphanumerics, `.`, `-` and `_` alone: a path that is its
/// own file name.
pub open spec fn plain_name(p: Seq<char>) -> bool {
    single_component(p) && forall|i: int| 0 <= i < p.len() ==> safe_name_char(#[trigger] p[i])
}

/// What `Path::file_name` returns: a plain name is its own file name, and any name found
/// is a single component.
pub open spec fn last_component(p: Seq<char>) -> Option<Seq<char>> {
    if plain_name(p) {
        Some(p)
    } else {
        match path_file_name(p) {
            Some(n) => if single_component(n) {
                Some(n)
            } else {
                None
            },
            None => None,
        }
    }
}

/// Trusted: `Path::new(p).file_name()` (read back as text) depends on the path text alone.
/// A name it finds is the path's last normal component: non-empty, never `.` or `..`, with
/// no `/`. A path of one such component made of alphanumerics, `.`, `-` and `_` (no separator
/// or prefix on any platform) is its own file name.
#[verifier::external_body]
fn file_name_of(p: &str) -> (r: Option<String>)
    ensures
        match r {
            Some(n) => last_component(p@) == Some(n@) && path_file_name(p@) == Some(n@),
            None => last_component(p@) is None && path_file_name(p@) is None,
        },
{
    let name = std::path::Path::new(p).file_name()?;
    Some(name.to_str()?.to_string())
}

/// A character kept in a stored file name; every other becomes `_`.
pub open spec fn safe_char(c: char) -> char {
    if safe_name_char(c) {
        c
    } else {
        '_'
    }
}

/// The name a received file is stored under.
pub open spec fn sanitized(filename: Seq<char>) -> Seq<char> {
    match last_component(filename) {
        Some(n) => n.map_values(|c: char| safe_char(c)),
        None => "unnamed_file"@,
    }
}

/// Keeps only the last path component of `filename` and replaces every character that is
/// not alphanumeric, `.`, `-` or `_` by `_`; `unnamed_file` when there is no last component.
/// The result is a plain name, so it cannot leave the directory it is joined to.
pub fn sanitize_filename(filename: &str) -> (r: String)
    ensures
        r@ == sanitized(filename@),
        plain_name(r@),
{
    proof {
        reveal_strlit("unnamed_file");
        reveal_strlit("..");
        reveal_strlit(".");
    }
    match file_name_of(filename) {
        Some(name) => {
            let v = chars_of(name.as_str());
            let mut out = String::new();
            let mut i: usize = 0;
            while i < v.len()
                invariant
                    v@ == name@,
                    i <= v@.len(),
                    out@ =~= v@.subrange(0, i as int).map_values(|c: char| safe_char(c)),
                decreases v@.len() - i,
            {
                let c = v[i];
                if is_alphanumeric(c) || c == '.' || c == '-' || c == '_' {
                    push_char(&mut out, c);
                } else {
                    push_char(&mut out, '_');
                }
                i = i + 1;
            }
            assert(v@.subrange(0, v@.len() as int) =~= v@);
            proof {
                lemma_sanitized_plain(name@);
            }
            out
        },
        None => {
            let r = owned("unnamed_file");
            proof {
                lemma_fallback_plain();
            }
            r
        },
    }
}

proof fn lemma_sanitized_plain(n: Seq<char>)
    requires
        single_component(n),
    ensures
        plain_name(n.map_values(|c: char| safe_char(c))),
{
    reveal_strlit("..");
    reveal_strlit(".");
    let out = n.map_values(|c: char| safe_char(c));
    assert forall|i: int| 0 <= i < out.len() implies safe_name_char(#[trigger] out[i]) by {
        assert(out[i] == safe_char(n[i]));
    }
    assert(!out.contains('/')) by {
        if out.contains('/') {
            let i = choose|i: int| 0 <= i < out.len() && out[i] == '/';
            assert(out[i] == safe_char(n[i]));
        }
    }
    assert(out.len() == n.len());
    if out == ".."@ {
        assert(out[0] == safe_char(n[0]) && out[1] == safe_char(n[1]));
        assert(n[0] == '.' && n[1] == '.');
        assert(n =~= ".."@);
    }
    if out == "."@ {
        assert(out[0] == safe_char(n[0]));
        assert(n[0] == '.');
        assert(n =~= "."@);
    }
}

proof fn lemma_fallback_plain()
    ensures
        plain_name("unnamed_file"@),
{
    reveal_strlit("unnamed_file");
    reveal_strlit("..");
    reveal_strlit(".");
    let s = "unnamed_file"@;
    assert forall|i: int| 0 <= i < s.len() implies safe_name_char(#[trigger] s[i]) by {
        assert(s[i] == '_' || ('a' <= s[i] <= 'z'));
    }
    assert(!s.contains('/')) by {
        if s.contains('/') {
            let i = choose|i: int| 0 <= i < s.len() && s[i] == '/';
            assert(s[i] == '_' || ('a' <= s[i] <= 'z'));
        }
    }
    assert(s[0] == 'u');
}

/// Sanitizing a name that was already sanitized changes nothing.
pub proof fn law_sanitize_idempotent(filename: Seq<char>)
    ensures
        sanitized(sanitized(filename)) == sanitized(filename),
{
    let s = sanitized(filename);
    match last_component(filename) {
        Some(n) => {
            if !plain_name(n) {
                assert(single_component(n));
            }
            lemma_sanitized_plain(n);
        },
        None => {
            lemma_fallback_plain();
        },
    }
    assert(plain_name(s));
    assert(last_component(s) == Some(s));
    assert(s.map_values(|c: char| safe_char(c)) =~= s) by {
        assert forall|i: int| 0 <= i < s.len() implies s.map_values(|c: char| safe_char(c))[i] == s[i] by {
            assert(safe_name_char(s[i]));
        }
    }
}

/// The JSON text of a permission set that its owner signs.
pub fn permissions_json(p: &Permissions) -> (r: String)
    ensures
        r@ == permissions_json_text(*p),
{
    let mut r = owned("{\"allow_read\":");
    r.append(if p.allow_read { "true" } else { "false" });
    r.append(",\"allow_write\":");
    r.append(if p.allow_write { "true" } else { "false" });
    r.append(",\"allow_remote_push\":");
    r.append(if p.allow_remote_push { "true" } else { "false" });
    r.append("}");
    r
}

/// The text a pusher signs for a file: `<filename>|<content hash>`.
pub fn push_message(filename: &str, content_hash: &str) -> (r: String)
    ensures
        r@ == push_message_text(filename@, content_hash@),
{
    join3(filename, "|", content_hash)
}

/// The permissions a node asks for: read and write allowed, remote push refused, each
/// overridden by the option given.
pub fn requested_permissions(
    allow_push: Option<bool>,
    allow_read: Option<bool>,
    allow_write: Option<bool>,
) -> (p: Permissions)
    ensures
        p.allow_remote_push == match allow_push {
            Some(v) => v,
            None => false,
        },
        p.allow_read == match allow_read {
            Some(v) => v,
            None => true,
        },
        p.allow_write == match allow_write {
            Some(v) => v,
            None => true,
        },
{
    let mut perms = Permissions { allow_read: true, allow_write: true, allow_remote_push: false };
    if let Some(v) = allow_push {
        perms.allow_remote_push = v;
    }
    if let Some(v) = allow_read {
        perms.allow_read = v;
    }
    if let Some(v) = allow_write {
        perms.allow_write = v;
    }
    perms
}

/// The nonce a host's handshake answer carries, if it is `CHALLENGE:` followed by hex.
pub open spec fn challenge_nonce(reply: Seq<char>) -> Result<Seq<char>, Seq<char>> {
    if !"CHALLENGE:"@.is_prefix_of(reply) {
        Err("Invalid handshake response from host"@)
    } else {
        let nonce = reply.subrange(10, reply.len() as int);
        if hex_decoded(encode_utf8(nonce)) is Err {
            Err("Invalid nonce hex from host"@)
        } else {
            Ok(nonce)
        }
    }
}

/// Reads the nonce out of a host's handshake answer.
pub fn parse_challenge(reply: &str) -> (r: Result<String, String>)
    ensures
        match r {
            Ok(n) => challenge_nonce(reply@) == Ok::<Seq<char>, Seq<char>>(n@),
            Err(m) => challenge_nonce(reply@) == Err::<Seq<char>, Seq<char>>(m@),
        },
{
    proof {
        reveal_strlit("CHALLENGE:");
    }
    if !crate::text::starts_with(reply, "CHALLENGE:") {
        return Err(owned("Invalid handshake response from host"));
    }
    let nonce = crate::text::drop_chars(reply, 10);
    match hex_decode(nonce.as_str()) {
        Ok(_) => Ok(nonce),
        Err(_) => Err(owned("Invalid nonce hex from host")),
    }
}

impl NodeInfo {
    /// A copy of this node description.
    pub fn duplicate(&self) -> (r: NodeInfo)
        ensures
            r == *self,
    {
        NodeInfo {
            pub_key: self.pub_key.clone(),
            role: self.role,
            address: self.address.clone(),
            permissions: self.permissions,
        }
    }
}

impl NetworkRegistry {
    /// An empty registry.
    pub fn new() -> (r: NetworkRegistry)
        ensures
            r.nodes.map() == Map::<Seq<char>, NodeInfo>::empty(),
            r.votes.map() == Map::<Seq<char>, StrMap<()>>::empty(),
            r.challenges.map() == Map::<Seq<char>, u64>::empty(),
    {
        NetworkRegistry { nodes: StrMap::new(), votes: StrMap::new(), challenges: StrMap::new() }
    }

    /// True when some registered node is the Host.
    pub fn host_exists(&self) -> (r: bool)
        ensures
            r == has_host(self.nodes.map()),
    {
        let n = self.nodes.len();
        let mut i: usize = 0;
        while i < n
            invariant
                n == self.nodes.pairs().len(),
                keys_distinct(self.nodes.pairs()),
                i <= n,
                forall|j: int| 0 <= j < i ==> self.nodes.pairs()[j].1.role != NodeRole::Host,
            decreases n - i,
        {
            if self.nodes.value_at(i).role == NodeRole::Host {
                proof {
                    lemma_pairs_map_at(self.nodes.pairs(), i as int);
                    assert(self.nodes.map().contains_key(self.nodes.pairs()[i as int].0));
                }
                return true;
            }
            i = i + 1;
        }
        proof {
            assert forall|k: Seq<char>| #[trigger] self.nodes.map().contains_key(k) implies self.nodes.map()[k].role
                != NodeRole::Host by {
                let j = crate::strmap::key_index(self.nodes.pairs(), k);
                lemma_pairs_map_at(self.nodes.pairs(), j);
            }
        }
        false
    }

    /// Issues a handshake challenge: records the hex of `nonce` with an expiry
    /// `CHALLENGE_EXPIRY_SECS` after `now`, and answers `CHALLENGE:<hex>`.
    pub fn issue_challenge(&mut self, nonce: &[u8], now: u64) -> (r: String)
        requires
            now <= u64::MAX - CHALLENGE_EXPIRY_SECS,
        ensures
            r@ == "CHALLENGE:"@ + hex_lower(nonce@),
            final(self).challenges.map() == old(self).challenges.map().insert(
                hex_lower(nonce@),
                (now + CHALLENGE_EXPIRY_SECS) as u64,
            ),
            final(self).nodes == old(self).nodes,
            final(self).votes == old(self).votes,
    {
        let nonce_hex = hex_encode(nonce);
        let expiry = now + CHALLENGE_EXPIRY_SECS;
        let reply = join2("CHALLENGE:", nonce_hex.as_str());
        self.challenges.insert(nonce_hex, expiry);
        reply
    }

    /// Handles a join request at time `now`: the challenge is consumed whatever follows;
    /// on success the node is registered under its public key, as Host when there is none yet
    /// and as Member otherwise.
    pub fn join(&mut self, payload: JoinPayload, now: u64) -> (r: Result<String, String>)
        ensures
            final(self).challenges.map() == old(self).challenges.map().remove(payload.nonce_hex@),
            final(self).votes == old(self).votes,
            match r {
                Err(m) => join_error(old(self).challenges.map(), payload, now) == Some(m@)
                    && final(self).nodes == old(self).nodes,
                Ok(m) => join_error(old(self).challenges.map(), payload, now) is None && m@
                    == join_message(old(self).nodes.map()) && final(self).nodes.map() == old(
                    self,
                ).nodes.map().insert(
                    payload.info.pub_key@,
                    with_role(payload.info, joined_role(old(self).nodes.map())),
                ),
            },
    {
        // 1. Verify the challenge, consuming it.
        match self.challenges.remove(&payload.nonce_hex) {
            Some(expiry) => {
                if now > expiry {
                    return Err(owned("Handshake challenge expired"));
                }
            },
            None => {
                return Err(owned("Invalid or reused handshake challenge"));
            },
        }
        // 2. Verify the signature over the nonce.
        let key = match decode_key(&payload.info.pub_key) {
            Ok(k) => k,
            Err(KeyFault::BadHex) => {
                return Err(owned("Invalid Public Key hex format"));
            },
            Err(KeyFault::BadLength) => {
                return Err(owned("Public Key must be 32 bytes"));
            },
            Err(KeyFault::BadPoint) => {
                return Err(owned("Invalid Ed25519 Public Key"));
            },
        };
        let sig = match decode_sig(&payload.sig_hex) {
            Ok(s) => s,
            Err(SigFault::BadHex) => {
                return Err(owned("Invalid Signature hex format"));
            },
            Err(SigFault::BadLength) => {
                return Err(owned("Signature must be 64 bytes"));
            },
        };
        if !verify_signature(&key, payload.nonce_hex.as_str().as_bytes(), &sig) {
            return Err(owned("Signature verification failed"));
        }
        // 3. Register the node.
        let host_exists = self.host_exists();
        let (role, msg) = if !host_exists {
            (NodeRole::Host, owned("Accepted: You are the Host."))
        } else {
            (NodeRole::Member, owned("Accepted: Joined as Member."))
        };
        let info = payload.info;
        let key_name = info.pub_key.clone();
        let info = NodeInfo {
            pub_key: info.pub_key,
            role,
            address: info.address,
            permissions: info.permissions,
        };
        self.nodes.insert(key_name, info);
        Ok(msg)
    }


    /// Records `voter`'s signed vote for `candidate`; with more than one vote a Member
    /// candidate is promoted to Gate.
    pub fn vote(&mut self, candidate: String, voter: String, sig_hex: String) -> (r: Result<String, String>)
        ensures
            final(self).challenges == old(self).challenges,
            match r {
                Err(m) => vote_error(old(self).nodes.map(), candidate@, voter@, sig_hex@) == Some(m@)
                    && final(self).nodes == old(self).nodes && final(self).votes == old(self).votes,
                Ok(m) => {
                    let count = vote_count(old(self).votes.map(), candidate@, voter@);
                    let promoted = promotes(old(self).nodes.map(), candidate@, count);
                    &&& vote_error(old(self).nodes.map(), candidate@, voter@, sig_hex@) is None
                    &&& final(self).votes.map().contains_key(candidate@)
                    &&& final(self).votes.map()[candidate@].map() == voters_before(
                        old(self).votes.map(),
                        candidate@,
                    ).insert(voter@, ())
                    &&& final(self).votes.map()[candidate@].pairs().len() == count
                    &&& final(self).votes.map().remove(candidate@) == old(self).votes.map().remove(
                        candidate@,
                    )
                    &&& promoted ==> final(self).nodes.map() == old(self).nodes.map().insert(
                        candidate@,
                        with_role(old(self).nodes.map()[candidate@], NodeRole::Gate),
                    )
                    &&& !promoted ==> final(self).nodes == old(self).nodes
                    &&& final(self).nodes.map() == vote_nodes(old(self).nodes.map(), candidate@, count)
                    &&& m@ == vote_message(promoted, count)
                },
            },
    {
        // 1. The voter must be a member, and the signature must cover the candidate.
        if !self.nodes.contains_key(&voter) {
            return Err(owned("Voter is not a member of the network"));
        }
        let key = match decode_key(&voter) {
            Ok(k) => k,
            Err(KeyFault::BadHex) => {
                return Err(owned("Invalid Voter Key"));
            },
            Err(KeyFault::BadLength) => {
                return Err(owned("Invalid Voter Key Length"));
            },
            Err(KeyFault::BadPoint) => {
                return Err(owned("Invalid Verify Key"));
            },
        };
        let sig = match decode_sig(&sig_hex) {
            Ok(s) => s,
            Err(SigFault::BadHex) => {
                return Err(owned("Invalid Signature"));
            },
            Err(SigFault::BadLength) => {
                return Err(owned("Invalid Signature Length"));
            },
        };
        if !verify_signature(&key, candidate.as_str().as_bytes(), &sig) {
            return Err(owned("Invalid Vote Signature"));
        }
        // 2. Record the vote.
        let ghost old_votes = self.votes.map();
        let mut voters = match self.votes.remove(&candidate) {
            Some(v) => v,
            None => StrMap::new(),
        };
        assert(voters.map() == voters_before(old_votes, candidate@));
        let ghost before_pairs = voters.pairs();
        let before_len = voters.len();
        voters.insert(voter, ());
        let total = voters.len();
        assert(total == vote_count(old_votes, candidate@, voter@));
        self.votes.insert(candidate.clone(), voters);
        assert(self.votes.map().remove(candidate@) =~= old_votes.remove(candidate@));
        let count_text = decimal_string(total as u64);
        if total > 1 {
            match self.nodes.find(&candidate) {
                Some(i) => {
                    if self.nodes.value_at(i).role == NodeRole::Member {
                        proof {
                            lemma_pairs_map_at(self.nodes.pairs(), i as int);
                        }
                        let node = self.nodes.value_at(i).duplicate();
                        let promoted = NodeInfo {
                            pub_key: node.pub_key,
                            role: NodeRole::Gate,
                            address: node.address,
                            permissions: node.permissions,
                        };
                        self.nodes.set_value_at(i, promoted);
                        return Ok(join3("Vote recorded. Node promoted to Gate (", count_text.as_str(), " votes)"));
                    } else {
                        proof {
                            lemma_pairs_map_at(self.nodes.pairs(), i as int);
                        }
                    }
                },
                None => {},
            }
        }
        Ok(join2("Vote recorded. Total votes: ", count_text.as_str()))
    }

    /// Decides a shutdown request: only the Host may ask, signing the word `SHUTDOWN`.
    pub fn authorize_shutdown(&self, requester: &String, sig_hex: &String) -> (r: Result<String, String>)
        ensures
            match r {
                Err(m) => shutdown_error(self.nodes.map(), requester@, sig_hex@) == Some(m@),
                Ok(m) => shutdown_error(self.nodes.map(), requester@, sig_hex@) is None && m@
                    == "Server shutting down in 5 seconds..."@,
            },
    {
        match self.nodes.get(requester) {
            None => {
                return Err(owned("Requester not found"));
            },
            Some(node) => {
                if node.role != NodeRole::Host {
                    return Err(owned("Only the Host can shut down the server"));
                }
            },
        }
        let key = match decode_key(requester) {
            Ok(k) => k,
            Err(KeyFault::BadHex) => {
                return Err(owned("Invalid Requester Key"));
            },
            Err(KeyFault::BadLength) => {
                return Err(owned("Invalid Key Length"));
            },
            Err(KeyFault::BadPoint) => {
                return Err(owned("Invalid Verify Key"));
            },
        };
        let sig = match decode_sig(sig_hex) {
            Ok(s) => s,
            Err(SigFault::BadHex) => {
                return Err(owned("Invalid Signature"));
            },
            Err(SigFault::BadLength) => {
                return Err(owned("Invalid Signature Length"));
            },
        };
        if !verify_signature(&key, "SHUTDOWN".as_bytes(), &sig) {
            return Err(owned("Invalid Shutdown Signature"));
        }
        Ok(owned("Server shutting down in 5 seconds..."))
    }

    /// Replaces `requester`'s permissions with `new_perms`, which it must have signed.
    pub fn update_permissions(&mut self, requester: &String, new_perms: Permissions, sig_hex: &String) -> (r:
        Result<String, String>)
        ensures
            final(self).votes == old(self).votes,
            final(self).challenges == old(self).challenges,
            match r {
                Err(m) => permissions_error(old(self).nodes.map(), requester@, new_perms, sig_hex@)
                    == Some(m@) && final(self).nodes == old(self).nodes,
                Ok(m) => permissions_error(old(self).nodes.map(), requester@, new_perms, sig_hex@)
                    is None && m@ == "Permissions updated."@ && final(self).nodes.map() == old(
                    self,
                ).nodes.map().insert(
                    requester@,
                    with_permissions(old(self).nodes.map()[requester@], new_perms),
                ),
            },
    {
        // 1. Verify the signature over the new permissions.
        let key = match decode_key(requester) {
            Ok(k) => k,
            Err(KeyFault::BadHex) => {
                return Err(owned("Invalid Requester Key"));
            },
            Err(KeyFault::BadLength) => {
                return Err(owned("Invalid Key Length"));
            },
            Err(KeyFault::BadPoint) => {
                return Err(owned("Invalid Verify Key"));
            },
        };
        let sig = match decode_sig(sig_hex) {
            Ok(s) => s,
            Err(SigFault::BadHex) => {
                return Err(owned("Invalid Signature"));
            },
            Err(SigFault::BadLength) => {
                return Err(owned("Invalid Signature Length"));
            },
        };
        let perm_text = permissions_json(&new_perms);
        if !verify_signature(&key, perm_text.as_str().as_bytes(), &sig) {
            return Err(owned("Invalid Permission Signature"));
        }
        // 2. Update the node.
        match self.nodes.find(requester) {
            None => Err(owned("Node not found in registry")),
            Some(i) => {
                proof {
                    lemma_pairs_map_at(self.nodes.pairs(), i as int);
                }
                let node = self.nodes.value_at(i).duplicate();
                let updated = NodeInfo {
                    pub_key: node.pub_key,
                    role: node.role,
                    address: node.address,
                    permissions: new_perms,
                };
                self.nodes.set_value_at(i, updated);
                Ok(owned("Permissions updated."))
            },
        }
    }

    /// Decides a push received by the node whose key is `receiver`: on acceptance, the
    /// decoded content, the name to store it under and the answer; otherwise the HTTP
    /// status and answer.
    pub fn check_push(&self, receiver: &String, payload: &PushPayload) -> (r: Result<PushAccepted, PushRejected>)
        ensures
            match r {
                Err(rej) => push_rejection(self.nodes.map(), receiver@, *payload) == Some(
                    (rej.status, rej.message@),
                ),
                Ok(acc) => {
                    &&& push_rejection(self.nodes.map(), receiver@, *payload) is None
                    &&& hex_decoded(encode_utf8(payload.content_hex@)) == Ok::<Seq<u8>, HexError>(
                        acc.content@,
                    )
                    &&& acc.file_name@ == sanitized(payload.filename@)
                    &&& acc.message@ == "File received: "@ + payload.filename@ + " (from "@
                        + payload.pub_key@.subrange(
                        0,
                        if payload.pub_key@.len() < 16 {
                            payload.pub_key@.len() as int
                        } else {
                            16
                        },
                    ) + ")"@
                },
            },
    {
        // 1. Permissions and registration.
        match self.nodes.get(receiver) {
            None => {
                return Err(PushRejected { status: 500, message: owned("Receiver not in registry") });
            },
            Some(me) => {
                if !me.permissions.allow_remote_push {
                    return Err(PushRejected { status: 403, message: owned("Remote push not allowed") });
                }
            },
        }
        if !self.nodes.contains_key(&payload.pub_key) {
            return Err(PushRejected { status: 403, message: owned("Sender not registered") });
        }
        // 2. Signature over `<filename>|<content hash>`.
        let key = match decode_key(&payload.pub_key) {
            Ok(k) => k,
            Err(KeyFault::BadHex) => {
                return Err(PushRejected { status: 400, message: owned("Invalid pubkey hex") });
            },
            Err(KeyFault::BadLength) => {
                return Err(PushRejected { status: 400, message: owned("Pubkey must be 32 bytes") });
            },
            Err(KeyFault::BadPoint) => {
                return Err(PushRejected { status: 400, message: owned("Invalid Ed25519 public key") });
            },
        };
        let sig = match decode_sig(&payload.sig_hex) {
            Ok(s) => s,
            Err(SigFault::BadHex) => {
                return Err(PushRejected { status: 400, message: owned("Invalid signature hex") });
            },
            Err(SigFault::BadLength) => {
                return Err(PushRejected { status: 400, message: owned("Signature must be 64 bytes") });
            },
        };
        let to_verify = push_message(payload.filename.as_str(), payload.content_hash.as_str());
        if !verify_signature(&key, to_verify.as_str().as_bytes(), &sig) {
            return Err(PushRejected { status: 401, message: owned("Invalid signature") });
        }
        // 3. Content and its hash.
        let content = match hex_decode(payload.content_hex.as_str()) {
            Ok(c) => c,
            Err(e) => {
                let text = hex_error_message(&e);
                return Err(PushRejected { status: 400, message: join2("Invalid content hex: ", text.as_str()) });
            },
        };
        let actual_hash = content_hash(content.as_slice());
        if !(actual_hash == payload.content_hash) {
            return Err(PushRejected { status: 400, message: owned("Content hash mismatch - possible tampering") });
        }
        let file_name = sanitize_filename(payload.filename.as_str());
        let n = char_count(payload.pub_key.as_str());
        let short_key = take_chars(payload.pub_key.as_str(), if n < 16 { n } else { 16 });
        let mut message = join3("File received: ", payload.filename.as_str(), " (from ");
        message.append(short_key.as_str());
        message.append(")");
        Ok(PushAccepted { content, file_name, message })
    }

    /// Registers this node as a Member reachable at `127.0.0.1:<port>` with default
    /// permissions, unless its key is already known; true when it was added.
    pub fn register_self(&mut self, pub_key: String, port: u16) -> (added: bool)
        ensures
            added == !old(self).nodes.map().contains_key(pub_key@),
            added ==> final(self).nodes.map() == old(self).nodes.map().insert(
                pub_key@,
                NodeInfo {
                    pub_key,
                    role: NodeRole::Member,
                    address: final(self).nodes.map()[pub_key@].address,
                    permissions: Permissions {
                        allow_read: false,
                        allow_write: false,
                        allow_remote_push: false,
                    },
                },
            ) && final(self).nodes.map()[pub_key@].address@ == "127.0.0.1:"@ + decimal(port as nat),
            !added ==> final(self).nodes == old(self).nodes,
            final(self).votes == old(self).votes,
            final(self).challenges == old(self).challenges,
    {
        if self.nodes.contains_key(&pub_key) {
            return false;
        }
        let port_text = decimal_string(port as u64);
        let address = join2("127.0.0.1:", port_text.as_str());
        let key_name = pub_key.clone();
        let info = NodeInfo {
            pub_key,
            role: NodeRole::Member,
            address,
            permissions: Permissions::default(),
        };
        self.nodes.insert(key_name, info);
        true
    }
}

/// A join leaves at most one Host: it makes the newcomer Host only when there is none.
pub proof fn law_join_keeps_one_host(nodes: Map<Seq<char>, NodeInfo>, key: Seq<char>, info: NodeInfo)
    requires
        at_most_one_host(nodes),
    ensures
        at_most_one_host(nodes.insert(key, with_role(info, joined_role(nodes)))),
{
    let after = nodes.insert(key, with_role(info, joined_role(nodes)));
    assert forall|a: Seq<char>, b: Seq<char>|
        #[trigger] after.contains_key(a) && #[trigger] after.contains_key(b) && after[a].role == NodeRole::Host
            && after[b].role == NodeRole::Host implies a == b by {
        if a != key && b != key {
            assert(nodes.contains_key(a) && nodes.contains_key(b));
        } else if a == key && b != key {
            assert(nodes.contains_key(b) && nodes[b].role == NodeRole::Host);
            assert(has_host(nodes));
        } else if b == key && a != key {
            assert(nodes.contains_key(a) && nodes[a].role == NodeRole::Host);
            assert(has_host(nodes));
        }
    }
}

/// A promotion to Gate never adds a Host.
pub proof fn law_promotion_keeps_one_host(nodes: Map<Seq<char>, NodeInfo>, candidate: Seq<char>)
    requires
        at_most_one_host(nodes),
        nodes.contains_key(candidate),
    ensures
        at_most_one_host(nodes.insert(candidate, with_role(nodes[candidate], NodeRole::Gate))),
{
    let after = nodes.insert(candidate, with_role(nodes[candidate], NodeRole::Gate));
    assert forall|a: Seq<char>, b: Seq<char>|
        #[trigger] after.contains_key(a) && #[trigger] after.contains_key(b) && after[a].role == NodeRole::Host
            && after[b].role == NodeRole::Host implies a == b by {
        assert(a != candidate && b != candidate);
        assert(nodes.contains_key(a) && nodes.contains_key(b));
    }
}

/// Changing a node's permissions never changes who is Host.
pub proof fn law_permissions_keep_one_host(nodes: Map<Seq<char>, NodeInfo>, requester: Seq<char>, perms: Permissions)
    requires
        at_most_one_host(nodes),
        nodes.contains_key(requester),
    ensures
        at_most_one_host(nodes.insert(requester, with_permissions(nodes[requester], perms))),
{
    let after = nodes.insert(requester, with_permissions(nodes[requester], perms));
    assert forall|a: Seq<char>, b: Seq<char>|
        #[trigger] after.contains_key(a) && #[trigger] after.contains_key(b) && after[a].role == NodeRole::Host
            && after[b].role == NodeRole::Host implies a == b by {
        assert(nodes.contains_key(a) && nodes.contains_key(b));
        assert(nodes[a].role == NodeRole::Host && nodes[b].role == NodeRole::Host);
    }
}

/// Registering a node as Member never adds a Host.
pub proof fn law_member_keeps_one_host(nodes: Map<Seq<char>, NodeInfo>, key: Seq<char>, info: NodeInfo)
    requires
        at_most_one_host(nodes),
        info.role == NodeRole::Member,
    ensures
        at_most_one_host(nodes.insert(key, info)),
{
    let after = nodes.insert(key, info);
    assert forall|a: Seq<char>, b: Seq<char>|
        #[trigger] after.contains_key(a) && #[trigger] after.contains_key(b) && after[a].role == NodeRole::Host
            && after[b].role == NodeRole::Host implies a == b by {
        assert(a != key && b != key);
        assert(nodes.contains_key(a) && nodes.contains_key(b));
    }
}

/// A handshake nonce is good for one join attempt: once tried, it is refused as reused.
pub proof fn law_challenge_single_use(challenges: Map<Seq<char>, u64>, first: JoinPayload, again: JoinPayload, later: u64)
    requires
        again.nonce_hex@ == first.nonce_hex@,
    ensures
        join_error(challenges.remove(first.nonce_hex@), again, later) == Some(
            "Invalid or reused handshake challenge"@,
        ),
{
}

/// A challenge is refused once its expiry has passed.
pub proof fn law_expired_challenge_refused(challenges: Map<Seq<char>, u64>, p: JoinPayload, now: u64)
    requires
        challenges.contains_key(p.nonce_hex@),
        now > challenges[p.nonce_hex@],
    ensures
        join_error(challenges, p, now) == Some("Handshake challenge expired"@),
{
}

/// A push is accepted exactly when the receiver allows remote pushes, the sender is
/// registered, the sender's key signed `<filename>|<content hash>`, and the content decodes
/// to bytes whose hash is the claimed one; so tampered content is always refused.
pub proof fn law_push_accepted_iff_authentic(nodes: Map<Seq<char>, NodeInfo>, receiver: Seq<char>, p: PushPayload)
    ensures
        push_rejection(nodes, receiver, p) is None <==> {
            &&& nodes.contains_key(receiver)
            &&& nodes[receiver].permissions.allow_remote_push
            &&& nodes.contains_key(p.pub_key@)
            &&& key_bytes_of(p.pub_key@) is Ok
            &&& sig_bytes_of(p.sig_hex@) is Ok
            &&& ed25519_signature_valid(
                key_bytes_of(p.pub_key@)->Ok_0,
                encode_utf8(push_message_text(p.filename@, p.content_hash@)),
                sig_bytes_of(p.sig_hex@)->Ok_0,
            )
            &&& hex_decoded(encode_utf8(p.content_hex@)) is Ok
            &&& content_hash_of(hex_decoded(encode_utf8(p.content_hex@))->Ok_0) == p.content_hash@
        },
{
}

/// Only the registered Host can have a shutdown accepted.
pub proof fn law_only_host_shuts_down(nodes: Map<Seq<char>, NodeInfo>, requester: Seq<char>, sig_hex: Seq<char>)
    ensures
        shutdown_error(nodes, requester, sig_hex) is None ==> nodes.contains_key(requester)
            && nodes[requester].role == NodeRole::Host,
{
}

/// The answer the host gives to a handshake is one a joining node reads back: the nonce
/// it carries is the hex text of the host's nonce bytes.
pub proof fn law_issued_challenge_parses(nonce: Seq<u8>)
    ensures
        challenge_nonce("CHALLENGE:"@ + hex_lower(nonce)) == Ok::<Seq<char>, Seq<char>>(hex_lower(nonce)),
{
    reveal_strlit("CHALLENGE:");
    let r = "CHALLENGE:"@ + hex_lower(nonce);
    assert("CHALLENGE:"@.is_prefix_of(r)) by {
        assert(r.subrange(0, 10) =~= "CHALLENGE:"@);
    }
    assert(r.subrange(10, r.len() as int) =~= hex_lower(nonce));
    law_hex_roundtrip(nonce);
}

proof fn lemma_name_literal(n: Seq<char>)
    requires
        forall|i: int| 0 <= i < n.len() ==> ('a' <= #[trigger] n[i] <= 'z' || n[i] == '_'),
    ensures
        json_str(n) == seq!['"'] + n + seq!['"'],
{
    assert forall|i: int| 0 <= i < n.len() implies json_plain_char(#[trigger] n[i]) by {
        assert('a' <= n[i] <= 'z' || n[i] == '_');
    }
    lemma_json_escaped_plain(n);
}

/// The permission text is the compact JSON object of the permission set: its fields in
/// declaration order, each named as in the struct with its boolean as value.
pub proof fn law_permissions_json_is_object(p: Permissions)
    ensures
        permissions_json_text(p) == json_object(
            seq![
                ("allow_read"@, bool_json(p.allow_read)),
                ("allow_write"@, bool_json(p.allow_write)),
                ("allow_remote_push"@, bool_json(p.allow_remote_push)),
            ],
        ),
{
    reveal_strlit("allow_read");
    reveal_strlit("allow_write");
    reveal_strlit("allow_remote_push");
    reveal_strlit("{\"allow_read\":");
    reveal_strlit(",\"allow_write\":");
    reveal_strlit(",\"allow_remote_push\":");
    reveal_strlit("}");
    let q = seq!['"'];
    let (n1, n2, n3) = ("allow_read"@, "allow_write"@, "allow_remote_push"@);
    let (b1, b2, b3) = (bool_json(p.allow_read), bool_json(p.allow_write), bool_json(p.allow_remote_push));
    lemma_name_literal(n1);
    lemma_name_literal(n2);
    lemma_name_literal(n3);
    let e1 = (n1, b1);
    let e2 = (n2, b2);
    let e3 = (n3, b3);
    let ms = seq![e1, e2, e3];
    let m1 = json_str(n1) + seq![':'] + b1;
    let m2 = json_members(seq![e1, e2]);
    assert(seq![e1, e2].drop_last() =~= seq![e1]);
    assert(json_members(seq![e1]) == m1);
    assert(m2 == m1 + seq![','] + json_str(n2) + seq![':'] + b2);
    assert(ms.drop_last() =~= seq![e1, e2]);
    assert(json_members(ms) == m2 + seq![','] + json_str(n3) + seq![':'] + b3);
    let t = permissions_json_text(p);
    assert("{\"allow_read\":"@ =~= seq!['{'] + (q + n1 + q) + seq![':']);
    assert(",\"allow_write\":"@ =~= seq![','] + (q + n2 + q) + seq![':']);
    assert(",\"allow_remote_push\":"@ =~= seq![','] + (q + n3 + q) + seq![':']);
    assert(t =~= seq!['{'] + (m2 + seq![','] + json_str(n3) + seq![':'] + b3) + seq!['}']);
}

/// Different permission sets are signed as different texts, and each field's value can be
/// read back from its place: the text shows the true state of every permission.
pub proof fn law_permissions_json_injective(p: Permissions, q: Permissions)
    ensures
        permissions_json_text(p) == permissions_json_text(q) <==> p == q,
        permissions_json_text(p)[14] == (if p.allow_read { 't' } else { 'f' }),
{
    reveal_strlit("{\"allow_read\":");
    reveal_strlit(",\"allow_write\":");
    reveal_strlit(",\"allow_remote_push\":");
    reveal_strlit("}");
    reveal_strlit("true");
    reveal_strlit("false");
    let tp = permissions_json_text(p);
    let tq = permissions_json_text(q);
    let lr = |b: bool| if b { 4int } else { 5int };
    let w = |x: Permissions| 14 + lr(x.allow_read) + 15;
    let u = |x: Permissions| w(x) + lr(x.allow_write) + 21;
    assert(tp[14] == (if p.allow_read { 't' } else { 'f' }));
    if tp == tq {
        assert(tq[14] == (if q.allow_read { 't' } else { 'f' }));
        assert(p.allow_read == q.allow_read);
        assert(tp[w(p)] == (if p.allow_write { 't' } else { 'f' }));
        assert(tq[w(q)] == (if q.allow_write { 't' } else { 'f' }));
        assert(p.allow_write == q.allow_write);
        assert(tp[u(p)] == (if p.allow_remote_push { 't' } else { 'f' }));
        assert(tq[u(q)] == (if q.allow_remote_push { 't' } else { 'f' }));
        assert(p.allow_remote_push == q.allow_remote_push);
    }
}

/// An ASCII letter or digit, `.`, `-` or `_`.
pub open spec fn ascii_name_char(c: char) -> bool {
    ('a' <= c <= 'z') || ('A' <= c <= 'Z') || ('0' <= c <= '9') || c == '.' || c == '-' || c == '_'
}

/// The stored name is as long as the last component; every ASCII letter or digit, `.`,
/// `-`, `_` and every other alphanumeric character stays where it is, and every other
/// character becomes `_`. A path with no last component is stored as `unnamed_file`.
pub proof fn law_sanitize_keeps_safe_chars(filename: Seq<char>)
    ensures
        match last_component(filename) {
            Some(n) => sanitized(filename).len() == n.len() && forall|i: int|
                0 <= i < n.len() ==> (if ascii_name_char(#[trigger] n[i]) || ((n[i] as u32) >= 128
                    && char_is_alphanumeric(n[i])) {
                    sanitized(filename)[i] == n[i]
                } else {
                    sanitized(filename)[i] == '_'
                }),
            None => sanitized(filename) == "unnamed_file"@,
        },
{
    match last_component(filename) {
        Some(n) => {
            let s = sanitized(filename);
            assert forall|i: int| 0 <= i < n.len() implies (if ascii_name_char(#[trigger] n[i]) || ((n[i] as u32)
                >= 128 && char_is_alphanumeric(n[i])) {
                s[i] == n[i]
            } else {
                s[i] == '_'
            }) by {
                assert(s[i] == safe_char(n[i]));
            }
        },
        None => {},
    }
}

/// A single component other than `.` and `..`, made of ASCII letters, digits, `.`, `-` and
/// `_`, is stored under its own name.
pub proof fn law_sanitize_keeps_ascii_name(n: Seq<char>)
    requires
        n.len() > 0,
        n != "."@,
        n != ".."@,
        forall|i: int| 0 <= i < n.len() ==> ascii_name_char(#[trigger] n[i]),
    ensures
        sanitized(n) == n,
{
    assert forall|i: int| 0 <= i < n.len() implies safe_name_char(#[trigger] n[i]) by {
        assert(ascii_name_char(n[i]));
    }
    assert(!n.contains('/')) by {
        if n.contains('/') {
            let i = choose|i: int| 0 <= i < n.len() && n[i] == '/';
            assert(ascii_name_char(n[i]));
        }
    }
    assert(plain_name(n));
    assert(n.map_values(|c: char| safe_char(c)) =~= n) by {
        assert forall|i: int| 0 <= i < n.len() implies n.map_values(|c: char| safe_char(c))[i] == n[i] by {
            assert(safe_name_char(n[i]));
        }
    }
}

/// A recorded vote changes at most one role: a Member candidate with more than one voter
/// becomes Gate, and no other node's role or details change. So a Host, a Gate or the
/// candidate of a single vote keeps its role, the Host stays, and the answer says
/// "promoted" exactly when the candidate's role changed.
pub proof fn law_vote_changes_only_a_member(nodes: Map<Seq<char>, NodeInfo>, candidate: Seq<char>, count: nat)
    ensures
        vote_nodes(nodes, candidate, count).dom() == nodes.dom(),
        forall|k: Seq<char>| #[trigger] nodes.contains_key(k) && k != candidate ==> vote_nodes(nodes, candidate, count)[k]
            == nodes[k],
        nodes.contains_key(candidate) ==> vote_nodes(nodes, candidate, count)[candidate] == with_role(
            nodes[candidate],
            vote_nodes(nodes, candidate, count)[candidate].role,
        ),
        nodes.contains_key(candidate) && nodes[candidate].role != NodeRole::Member ==> vote_nodes(nodes, candidate, count)
            == nodes,
        count <= 1 ==> vote_nodes(nodes, candidate, count) == nodes,
        nodes.contains_key(candidate) && nodes[candidate].role == NodeRole::Member && count > 1 ==> vote_nodes(
            nodes,
            candidate,
            count,
        )[candidate].role == NodeRole::Gate,
        has_host(nodes) ==> has_host(vote_nodes(nodes, candidate, count)),
        (vote_message(promotes(nodes, candidate, count), count) == "Vote recorded. Total votes: "@ + decimal(count))
            <==> vote_nodes(nodes, candidate, count) == nodes,
{
    reveal_strlit("Vote recorded. Total votes: ");
    reveal_strlit("Vote recorded. Node promoted to Gate (");
    let after = vote_nodes(nodes, candidate, count);
    if promotes(nodes, candidate, count) {
        assert(after.dom() =~= nodes.dom());
        assert(after[candidate].role == NodeRole::Gate);
        assert(after != nodes) by {
            assert(after[candidate].role != nodes[candidate].role);
        }
        if has_host(nodes) {
            let h = choose|h: Seq<char>| #[trigger] nodes.contains_key(h) && nodes[h].role == NodeRole::Host;
            assert(h != candidate);
            assert(after.contains_key(h) && after[h].role == NodeRole::Host);
        }
        let m = vote_message(true, count);
        let t = "Vote recorded. Total votes: "@ + decimal(count);
        assert(m[15] == 'N');
        assert(t[15] == 'T');
    }
}

/// A node that joins is Host exactly when no registered node is Host (however many other
/// nodes there are), and the answer says so; unless the joining node was itself the Host,
/// the registry has a Host after the join.
pub proof fn law_join_role(nodes: Map<Seq<char>, NodeInfo>, key: Seq<char>, info: NodeInfo)
    ensures
        nodes.insert(key, with_role(info, joined_role(nodes)))[key].role == NodeRole::Host <==> !has_host(nodes),
        nodes.insert(key, with_role(info, joined_role(nodes)))[key].role == NodeRole::Member <==> has_host(nodes),
        join_message(nodes) == "Accepted: You are the Host."@ <==> !has_host(nodes),
        !(nodes.contains_key(key) && nodes[key].role == NodeRole::Host) ==> has_host(
            nodes.insert(key, with_role(info, joined_role(nodes))),
        ),
{
    reveal_strlit("Accepted: You are the Host.");
    reveal_strlit("Accepted: Joined as Member.");
    let after = nodes.insert(key, with_role(info, joined_role(nodes)));
    if has_host(nodes) {
        assert("Accepted: Joined as Member."@[10] != "Accepted: You are the Host."@[10]);
        if !(nodes.contains_key(key) && nodes[key].role == NodeRole::Host) {
            let h = choose|h: Seq<char>| #[trigger] nodes.contains_key(h) && nodes[h].role == NodeRole::Host;
            assert(h != key);
            assert(after.contains_key(h) && after[h].role == NodeRole::Host);
        }
    } else {
        assert(after.contains_key(key) && after[key].role == NodeRole::Host);
    }
}

} // verus!
