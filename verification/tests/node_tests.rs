use ping_node::address::NetworkAddress;
use ping_node::identity::PeerIdentity;
use ping_node::identity::peer_id_for_public_key;
use ping_node::wire::multiaddr_wire_bytes;
use ping_node::wire::to_multiaddr;

#[test]
fn peer_id_is_a_function_of_the_public_key() {
    let id = PeerIdentity::generate();
    assert!(!id.public_key.is_empty());
    assert!(!id.peer_id.is_empty());
    // Re-deriving from the same encoded public key gives the same
    // identifier, however often.
    let again = peer_id_for_public_key(&id.public_key).unwrap();
    assert_eq!(again, id.peer_id);
    let and_again = peer_id_for_public_key(&id.public_key).unwrap();
    assert_eq!(and_again, id.peer_id);
}

#[test]
fn peer_id_matches_the_transport_crate() {
    // The identifier the library carries is the one the transport crate
    // itself derives for the same public key.
    let id = PeerIdentity::generate();
    let public_key =
        libp2p::identity::PublicKey::try_decode_protobuf(&id.public_key).unwrap();
    let expected = libp2p::identity::PeerId::from_public_key(&public_key).to_bytes();
    assert_eq!(id.peer_id, expected);
    assert_eq!(id.keypair.public().encode_protobuf(), id.public_key);
}

#[test]
fn distinct_keys_give_distinct_peer_ids() {
    let a = PeerIdentity::generate();
    let b = PeerIdentity::generate();
    assert_ne!(a.public_key, b.public_key);
    assert_ne!(a.peer_id, b.peer_id);
}

#[test]
fn garbage_bytes_encode_no_public_key() {
    assert_eq!(peer_id_for_public_key(&vec![0xde, 0xad, 0xbe, 0xef]), None);
    assert_eq!(peer_id_for_public_key(&Vec::new()), None);
}

#[test]
fn dial_address_bytes_are_the_multiaddr_encoding() {
    let addr = NetworkAddress::new(127, 0, 0, 1, 8080);
    let m = to_multiaddr(&addr);
    let bytes = multiaddr_wire_bytes(&m);
    assert_eq!(bytes, vec![4, 127, 0, 0, 1, 6, 31, 144]);
    // The same bytes the transport crate itself produces for that endpoint.
    let reference: libp2p::Multiaddr = "/ip4/127.0.0.1/tcp/8080".parse().unwrap();
    assert_eq!(bytes, reference.to_vec());
    assert_eq!(m, reference);
}

#[test]
fn wildcard_dial_address_encodes_all_zero_host() {
    let addr = NetworkAddress::new(0, 0, 0, 0, 8080);
    let m = to_multiaddr(&addr);
    assert_eq!(multiaddr_wire_bytes(&m), vec![4, 0, 0, 0, 0, 6, 31, 144]);
}
