//! The node's cryptographic identity: an Ed25519 keypair generated once
//! at startup, and the stable peer identifier derived from its public
//! key. Key generation and the derivation itself are the outside
//! cryptography crate's work; this module pins down that the identifier
//! is a function of the encoded public key alone.

use vstd::prelude::*;

verus! {

#[verifier::external_type_specification]
#[verifier::external_body]
pub struct ExKeypair(libp2p::identity::Keypair);

/// Whether a byte string is a protobuf encoding of a supported public
/// key, exactly the encodings `libp2p::identity::PublicKey::try_decode_protobuf`
/// accepts.
pub uninterp spec fn is_public_key_encoding(bytes: Seq<u8>) -> bool;

/// The peer identifier bytes that `libp2p::identity::PeerId::from_public_key`
/// derives for the public key a byte string encodes: a multihash over the
/// encoding, a function of the bytes alone.
pub uninterp spec fn peer_id_bytes_of(bytes: Seq<u8>) -> Seq<u8>;

/// Relies on libp2p::identity::Keypair::generate_ed25519: a fresh keypair
/// from the platform's secure randomness; nothing is promised of which.
#[verifier::external_body]
fn generate_keypair() -> (r: libp2p::identity::Keypair) {
    libp2p::identity::Keypair::generate_ed25519()
}

/// Relies on libp2p::identity::Keypair::public and
/// libp2p::identity::PublicKey::encode_protobuf: the keypair's public
/// half, encoded as a protobuf byte string, which that crate's own
/// decoder accepts again.
#[verifier::external_body]
fn encode_public(k: &libp2p::identity::Keypair) -> (r: Vec<u8>)
    ensures
        is_public_key_encoding(r@),
{
    k.public().encode_protobuf()
}

/// Relies on libp2p::identity::PublicKey::try_decode_protobuf, which
/// succeeds exactly on the encodings it accepts, and on
/// libp2p::identity::PeerId::from_public_key with PeerId::to_bytes, whose
/// result is derived from the encoded public key alone.
#[verifier::external_body]
fn peer_id_from_encoded(bytes: &Vec<u8>) -> (r: Option<Vec<u8>>)
    ensures
        (r is Some) <==> is_public_key_encoding(bytes@),
        r matches Some(p) ==> p@ == peer_id_bytes_of(bytes@),
{
    match libp2p::identity::PublicKey::try_decode_protobuf(bytes.as_slice()) {
        Ok(public_key) => Some(libp2p::identity::PeerId::from_public_key(&public_key).to_bytes()),
        Err(_) => None,
    }
}

/// The process's one identity: the keypair, its encoded public key, and
/// the peer identifier derived from that key. Created once at startup and
/// immutable for the process lifetime.
pub struct PeerIdentity {
    pub keypair: libp2p::identity::Keypair,
    pub public_key: Vec<u8>,
    pub peer_id: Vec<u8>,
}

impl PeerIdentity {
    /// The identity is coherent: the peer identifier is the one derived
    /// from its own encoded public key.
    pub open spec fn wf(self) -> bool {
        &&& is_public_key_encoding(self.public_key@)
        &&& self.peer_id@ == peer_id_bytes_of(self.public_key@)
    }

    /// A fresh identity: an Ed25519 keypair and the peer identifier
    /// derived from its public key. Consumes entropy and nothing else.
    pub fn generate() -> (r: PeerIdentity)
        ensures
            r.wf(),
    {
        let keypair = generate_keypair();
        let public_key = encode_public(&keypair);
        match peer_id_from_encoded(&public_key) {
            Some(peer_id) => PeerIdentity { keypair, public_key, peer_id },
            None => {
                proof {
                    assert(false);
                }
                PeerIdentity { keypair, public_key, peer_id: Vec::new() }
            },
        }
    }
}

/// Re-derives the peer identifier an encoded public key determines;
/// nothing for bytes that encode no supported key.
pub fn peer_id_for_public_key(public_key: &Vec<u8>) -> (r: Option<Vec<u8>>)
    ensures
        (r is Some) <==> is_public_key_encoding(public_key@),
        r matches Some(p) ==> p@ == peer_id_bytes_of(public_key@),
{
    peer_id_from_encoded(public_key)
}

/// The peer identifier is a deterministic function of the public key:
/// identities over the same encoded public key carry the same identifier.
pub proof fn lemma_peer_id_deterministic(a: PeerIdentity, b: PeerIdentity)
    requires
        a.wf(),
        b.wf(),
        a.public_key@ == b.public_key@,
    ensures
        a.peer_id@ == b.peer_id@,
{
}

} // verus!
