use ping_node::address::AddrSegment;
use ping_node::address::Candidate;
use ping_node::address::NetworkAddress;
use ping_node::address::ResolveError;
use ping_node::address::parse_ipv4;
use ping_node::address::resolve_literal;
use ping_node::address::select_ipv4;
use ping_node::address::split_host_port;

#[test]
fn resolves_literal_host_with_port() {
    let addr = resolve_literal(b"127.0.0.1:9000", 8080).unwrap().unwrap();
    assert_eq!(addr.host(), (127, 0, 0, 1));
    assert_eq!(addr.port(), 9000);
    assert_eq!(
        addr.segments,
        vec![AddrSegment::Ip4(127, 0, 0, 1), AddrSegment::Tcp(9000)]
    );
}

#[test]
fn resolves_literal_host_with_default_port() {
    let addr = resolve_literal(b"10.0.0.5", 8080).unwrap().unwrap();
    assert_eq!(addr.host(), (10, 0, 0, 5));
    assert_eq!(addr.port(), 8080);
}

#[test]
fn wildcard_listen_address() {
    let addr = resolve_literal(b"0.0.0.0:8080", 8080).unwrap().unwrap();
    assert_eq!(addr.host(), (0, 0, 0, 0));
    assert_eq!(addr.port(), 8080);
}

#[test]
fn port_with_leading_zeros_is_its_value() {
    let addr = resolve_literal(b"127.0.0.1:080", 8080).unwrap().unwrap();
    assert_eq!(addr.port(), 80);
}

#[test]
fn rejects_port_out_of_range() {
    assert_eq!(
        resolve_literal(b"127.0.0.1:65536", 8080),
        Err(ResolveError::InvalidPort)
    );
    assert_eq!(
        resolve_literal(b"127.0.0.1:99999", 8080),
        Err(ResolveError::InvalidPort)
    );
}

#[test]
fn rejects_non_numeric_port() {
    assert_eq!(resolve_literal(b"host:abc", 8080), Err(ResolveError::InvalidPort));
    assert_eq!(resolve_literal(b"host:", 8080), Err(ResolveError::InvalidPort));
}

#[test]
fn largest_port_is_accepted() {
    let addr = resolve_literal(b"1.2.3.4:65535", 8080).unwrap().unwrap();
    assert_eq!(addr.port(), 65535);
}

#[test]
fn named_host_needs_name_resolution() {
    assert_eq!(resolve_literal(b"example.com", 8080), Ok(None));
    assert_eq!(resolve_literal(b"example.com:443", 8080), Ok(None));
}

#[test]
fn splits_named_host_and_port() {
    let (host, port) = split_host_port(b"example.com:443", 8080).unwrap();
    assert_eq!(host, b"example.com".to_vec());
    assert_eq!(port, 443);
    let (host, port) = split_host_port(b"example.com", 8080).unwrap();
    assert_eq!(host, b"example.com".to_vec());
    assert_eq!(port, 8080);
}

#[test]
fn parses_dotted_quads_exactly() {
    assert_eq!(parse_ipv4(b"127.0.0.1"), Some((127, 0, 0, 1)));
    assert_eq!(parse_ipv4(b"0.0.0.0"), Some((0, 0, 0, 0)));
    assert_eq!(parse_ipv4(b"255.255.255.255"), Some((255, 255, 255, 255)));
    assert_eq!(parse_ipv4(b"256.0.0.1"), None);
    assert_eq!(parse_ipv4(b"1.2.3"), None);
    assert_eq!(parse_ipv4(b"1.2.3.4.5"), None);
    assert_eq!(parse_ipv4(b"01.2.3.4"), None);
    assert_eq!(parse_ipv4(b"1..2.3"), None);
    assert_eq!(parse_ipv4(b""), None);
    assert_eq!(parse_ipv4(b"a.b.c.d"), None);
}

#[test]
fn selects_first_ipv4_candidate() {
    let cands = vec![
        Candidate::Other,
        Candidate::V4(93, 184, 216, 34),
        Candidate::V4(1, 1, 1, 1),
    ];
    let addr = select_ipv4(&cands, 443).unwrap();
    assert_eq!(addr.host(), (93, 184, 216, 34));
    assert_eq!(addr.port(), 443);
}

#[test]
fn reports_empty_and_non_ipv4_resolutions_apart() {
    assert_eq!(select_ipv4(&vec![], 80), Err(ResolveError::NotFound));
    assert_eq!(
        select_ipv4(&vec![Candidate::Other, Candidate::Other], 80),
        Err(ResolveError::Unsupported)
    );
}

#[test]
fn address_duplicate_is_equal() {
    let addr = NetworkAddress::new(192, 168, 0, 1, 4001);
    let copy = addr.duplicate();
    assert_eq!(addr, copy);
}
