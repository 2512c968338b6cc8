//! The wire form of a network address: the multiaddress bytes the
//! transport's dialer takes. Building the value is the outside crate's
//! work; this module proves the bytes are exactly the address's
//! protocol-tagged encoding.

use vstd::prelude::*;
use crate::address::AddrSegment;
use crate::address::NetworkAddress;

verus! {

#[verifier::external_type_specification]
#[verifier::external_body]
pub struct ExMultiaddr(libp2p::Multiaddr);

/// The byte representation a multiaddress holds, the one
/// `libp2p::Multiaddr::to_vec` returns.
pub uninterp spec fn multiaddr_bytes(m: libp2p::Multiaddr) -> Seq<u8>;

/// Relies on Multiaddr::empty: a fresh multiaddress holds no bytes.
#[verifier::external_body]
fn multiaddr_empty() -> (m: libp2p::Multiaddr)
    ensures
        multiaddr_bytes(m) == Seq::<u8>::empty(),
{
    libp2p::Multiaddr::empty()
}

/// Relies on Multiaddr::push with Protocol::Ip4: it appends the IPv4
/// protocol code 4, a one-byte varint, then the four octets.
#[verifier::external_body]
fn multiaddr_push_ip4(m: &mut libp2p::Multiaddr, a: u8, b: u8, c: u8, d: u8)
    ensures
        multiaddr_bytes(*final(m)) == multiaddr_bytes(*old(m)) + seq![4u8, a, b, c, d],
{
    m.push(libp2p::multiaddr::Protocol::Ip4([a, b, c, d].into()))
}

/// Relies on Multiaddr::push with Protocol::Tcp: it appends the TCP
/// protocol code 6, a one-byte varint, then the port in big-endian order.
#[verifier::external_body]
fn multiaddr_push_tcp(m: &mut libp2p::Multiaddr, port: u16)
    ensures
        multiaddr_bytes(*final(m)) == multiaddr_bytes(*old(m)) + seq![
            6u8,
            (port / 256) as u8,
            (port % 256) as u8,
        ],
{
    m.push(libp2p::multiaddr::Protocol::Tcp(port))
}

/// Relies on Multiaddr::to_vec: a copy of the byte representation.
#[verifier::external_body]
fn multiaddr_to_vec(m: &libp2p::Multiaddr) -> (r: Vec<u8>)
    ensures
        r@ == multiaddr_bytes(*m),
{
    m.to_vec()
}

/// The encoding of one protocol segment on the wire.
pub open spec fn segment_encoding(s: AddrSegment) -> Seq<u8> {
    match s {
        AddrSegment::Ip4(a, b, c, d) => seq![4u8, a, b, c, d],
        AddrSegment::Tcp(p) => seq![6u8, (p / 256) as u8, (p % 256) as u8],
    }
}

/// The encoding of an address: its segments' encodings in order.
pub open spec fn multiaddr_encoding(segs: Seq<AddrSegment>) -> Seq<u8>
    decreases segs.len(),
{
    if segs.len() == 0 {
        Seq::<u8>::empty()
    } else {
        segment_encoding(segs[0]) + multiaddr_encoding(segs.skip(1))
    }
}

/// Builds the multiaddress the transport dials: its bytes are exactly the
/// address's encoding, host segment then port segment.
pub fn to_multiaddr(addr: &NetworkAddress) -> (m: libp2p::Multiaddr)
    requires
        addr.wf(),
    ensures
        multiaddr_bytes(m) == multiaddr_encoding(addr@),
{
    let (a, b, c, d) = addr.host();
    let port = addr.port();
    let mut m = multiaddr_empty();
    multiaddr_push_ip4(&mut m, a, b, c, d);
    multiaddr_push_tcp(&mut m, port);
    proof {
        let segs = addr@;
        assert(segs.skip(1).skip(1) =~= Seq::<AddrSegment>::empty());
        assert(multiaddr_encoding(Seq::<AddrSegment>::empty()) == Seq::<u8>::empty());
        assert(segs.skip(1)[0] == segs[1]);
        assert(segs[0] == AddrSegment::Ip4(a, b, c, d));
        assert(segs[1] == AddrSegment::Tcp(port));
        assert(multiaddr_encoding(segs.skip(1)) == segment_encoding(segs[1]) + multiaddr_encoding(
            segs.skip(1).skip(1),
        ));
        assert(multiaddr_encoding(segs) == segment_encoding(segs[0]) + multiaddr_encoding(
            segs.skip(1),
        ));
        assert(multiaddr_bytes(m) =~= multiaddr_encoding(segs));
    }
    m
}

/// The bytes a multiaddress will put on the wire.
pub fn multiaddr_wire_bytes(m: &libp2p::Multiaddr) -> (r: Vec<u8>)
    ensures
        r@ == multiaddr_bytes(*m),
{
    multiaddr_to_vec(m)
}

} // verus!
