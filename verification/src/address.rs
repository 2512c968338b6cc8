//! Address resolution: turning a textual `host[:port]` into a structured,
//! protocol-tagged network address of an IPv4 host and a TCP port.

use vstd::prelude::*;

verus! {

/// One typed protocol segment of a network address.
#[derive(Clone, Copy, PartialEq, Eq, Structural, Debug)]
pub enum AddrSegment {
    /// An IPv4 host, as its four octets.
    Ip4(u8, u8, u8, u8),
    /// A TCP transport port.
    Tcp(u16),
}

/// A structured network endpoint: an ordered stack of typed protocol
/// segments. Well-formed values hold exactly an IPv4 host followed by a
/// TCP port, and are immutable once constructed.
#[derive(PartialEq, Eq, Debug)]
pub struct NetworkAddress {
    pub segments: Vec<AddrSegment>,
}

impl View for NetworkAddress {
    type V = Seq<AddrSegment>;

    open spec fn view(&self) -> Seq<AddrSegment> {
        self.segments@
    }
}

impl NetworkAddress {
    /// A well-formed address is exactly one IPv4 host followed by one
    /// TCP port.
    pub open spec fn wf(self) -> bool {
        &&& self@.len() == 2
        &&& self@[0] is Ip4
        &&& self@[1] is Tcp
    }

    /// The transport port carried by the address.
    pub open spec fn spec_port(self) -> u16 {
        self@[1]->Tcp_0
    }

    /// The four host octets carried by the address.
    pub open spec fn spec_host(self) -> (u8, u8, u8, u8) {
        (self@[0]->Ip4_0, self@[0]->Ip4_1, self@[0]->Ip4_2, self@[0]->Ip4_3)
    }

    pub fn new(a: u8, b: u8, c: u8, d: u8, port: u16) -> (r: NetworkAddress)
        ensures
            r.wf(),
            r.spec_host() == (a, b, c, d),
            r.spec_port() == port,
    {
        let mut segments: Vec<AddrSegment> = Vec::new();
        segments.push(AddrSegment::Ip4(a, b, c, d));
        segments.push(AddrSegment::Tcp(port));
        NetworkAddress { segments }
    }

    /// A fresh copy of an immutable address.
    pub fn duplicate(&self) -> (r: NetworkAddress)
        ensures
            r@ == self@,
    {
        let mut segments: Vec<AddrSegment> = Vec::new();
        let n = self.segments.len();
        let mut i: usize = 0;
        while i < n
            invariant
                i <= n == self.segments@.len(),
                segments@ == self.segments@.take(i as int),
            decreases n - i,
        {
            segments.push(self.segments[i]);
            proof {
                assert(segments@ =~= self.segments@.take(i + 1));
            }
            i += 1;
        }
        proof {
            assert(self.segments@.take(n as int) =~= self.segments@);
        }
        NetworkAddress { segments }
    }

    pub fn port(&self) -> (p: u16)
        requires
            self.wf(),
        ensures
            p == self.spec_port(),
    {
        match self.segments[1] {
            AddrSegment::Tcp(p) => p,
            _ => {
                proof {
                    assert(false);
                }
                0
            },
        }
    }

    pub fn host(&self) -> (h: (u8, u8, u8, u8))
        requires
            self.wf(),
        ensures
            h == self.spec_host(),
    {
        match self.segments[0] {
            AddrSegment::Ip4(a, b, c, d) => (a, b, c, d),
            _ => {
                proof {
                    assert(false);
                }
                (0, 0, 0, 0)
            },
        }
    }
}

/// ASCII code of `'0'`.
pub const ASCII_ZERO: u8 = 48;

/// ASCII code of `'9'`.
pub const ASCII_NINE: u8 = 57;

/// ASCII code of `'.'`.
pub const ASCII_DOT: u8 = 46;

/// ASCII code of `':'`.
pub const ASCII_COLON: u8 = 58;

pub open spec fn is_ascii_digit(c: u8) -> bool {
    ASCII_ZERO <= c <= ASCII_NINE
}

pub open spec fn all_digits(s: Seq<u8>) -> bool {
    forall|i: int| 0 <= i < s.len() ==> is_ascii_digit(#[trigger] s[i])
}

/// The numeric value of a sequence of ASCII digits, most significant first.
pub open spec fn digits_val(s: Seq<u8>) -> int
    decreases s.len(),
{
    if s.len() == 0 {
        0
    } else {
        digits_val(s.drop_last()) * 10 + s.last() - ASCII_ZERO
    }
}

proof fn lemma_digits_val_nonneg(s: Seq<u8>)
    requires
        all_digits(s),
    ensures
        digits_val(s) >= 0,
    decreases s.len(),
{
    if s.len() > 0 {
        assert(all_digits(s.drop_last()));
        lemma_digits_val_nonneg(s.drop_last());
    }
}

/// The value of a digit string is at least the value of any of its prefixes.
proof fn lemma_digits_val_prefix(s: Seq<u8>, m: int)
    requires
        all_digits(s),
        0 <= m <= s.len(),
    ensures
        digits_val(s) >= digits_val(s.take(m)),
    decreases s.len() - m,
{
    if m < s.len() {
        assert(s.take(m + 1).drop_last() =~= s.take(m));
        assert(s.take(m + 1).last() == s[m]);
        assert(all_digits(s.take(m)));
        lemma_digits_val_nonneg(s.take(m));
        assert(digits_val(s.take(m + 1)) >= digits_val(s.take(m)));
        lemma_digits_val_prefix(s, m + 1);
    } else {
        assert(s.take(m) =~= s);
    }
}

/// Parses the decimal digits of `s[start..end]` as a number no greater
/// than `bound`. Succeeds exactly on non-empty all-digit ranges whose
/// value fits the bound; leading zeros are accepted here and constrained
/// by the callers that forbid them.
pub fn parse_decimal_range(s: &[u8], start: usize, end: usize, bound: u32) -> (r: Option<u32>)
    requires
        start <= end <= s@.len(),
    ensures
        (r is Some) <==> (start < end && all_digits(s@.subrange(start as int, end as int))
            && digits_val(s@.subrange(start as int, end as int)) <= bound),
        r matches Some(v) ==> v == digits_val(s@.subrange(start as int, end as int)),
    {
    let ghost part = s@.subrange(start as int, end as int);
    if start == end {
        return None;
    }
    let mut acc: u64 = 0;
    let mut i: usize = start;
    while i < end
        invariant
            start <= i <= end <= s@.len(),
            part == s@.subrange(start as int, end as int),
            all_digits(part.take(i - start)),
            acc == digits_val(part.take(i - start)),
            acc <= bound,
        decreases end - i,
    {
        let c = s[i];
        if c < ASCII_ZERO || c > ASCII_NINE {
            proof {
                assert(part[i - start] == s@[i as int]);
                assert(!is_ascii_digit(part[i - start]));
            }
            return None;
        }
        proof {
            assert(part.take(i - start + 1).drop_last() =~= part.take(i - start));
            assert(part.take(i - start + 1).last() == part[i - start] == s@[i as int]);
        }
        acc = acc * 10 + ((c - ASCII_ZERO) as u64);
        i += 1;
        if acc > bound as u64 {
            proof {
                if all_digits(part) {
                    lemma_digits_val_prefix(part, i - start);
                }
            }
            return None;
        }
    }
    proof {
        assert(part.take(end - start) =~= part);
    }
    Some(acc as u32)
}

/// `s` is one decimal octet of an IPv4 literal: non-empty digits, no
/// leading zero unless the octet is exactly `0`, value at most 255.
pub open spec fn is_octet(s: Seq<u8>) -> bool {
    &&& s.len() >= 1
    &&& all_digits(s)
    &&& (s.len() > 1 ==> s[0] != ASCII_ZERO)
    &&& digits_val(s) <= 255
}

/// Parses `s[start..end]` as one decimal octet.
pub fn parse_octet(s: &[u8], start: usize, end: usize) -> (r: Option<u8>)
    requires
        start <= end <= s@.len(),
    ensures
        (r is Some) <==> is_octet(s@.subrange(start as int, end as int)),
        r matches Some(v) ==> v == digits_val(s@.subrange(start as int, end as int)),
{
    if end - start > 1 && s[start] == ASCII_ZERO {
        proof {
            assert(s@.subrange(start as int, end as int)[0] == s@[start as int]);
        }
        return None;
    }
    match parse_decimal_range(s, start, end, 255) {
        Some(v) => Some(v as u8),
        None => None,
    }
}

/// The dots of an IPv4 literal stand exactly at `i < j < k`, and the four
/// ranges around them are decimal octets.
pub open spec fn ipv4_split_at(s: Seq<u8>, i: int, j: int, k: int) -> bool {
    &&& 0 <= i < j < k < s.len()
    &&& s[i] == ASCII_DOT
    &&& s[j] == ASCII_DOT
    &&& s[k] == ASCII_DOT
    &&& is_octet(s.take(i))
    &&& is_octet(s.subrange(i + 1, j))
    &&& is_octet(s.subrange(j + 1, k))
    &&& is_octet(s.subrange(k + 1, s.len() as int))
}

/// `s` is a dotted-quad IPv4 literal such as `127.0.0.1`.
pub open spec fn is_ipv4_literal(s: Seq<u8>) -> bool {
    exists|i: int, j: int, k: int| ipv4_split_at(s, i, j, k)
}

/// The four octet values of an IPv4 literal.
pub open spec fn ipv4_octets(s: Seq<u8>) -> (u8, u8, u8, u8) {
    let (i, j, k) = choose|i: int, j: int, k: int| ipv4_split_at(s, i, j, k);
    (
        digits_val(s.take(i)) as u8,
        digits_val(s.subrange(i + 1, j)) as u8,
        digits_val(s.subrange(j + 1, k)) as u8,
        digits_val(s.subrange(k + 1, s.len() as int)) as u8,
    )
}

/// Within a decomposed IPv4 literal, every position other than the three
/// dots holds a digit.
proof fn lemma_split_digits(s: Seq<u8>, i: int, j: int, k: int)
    requires
        ipv4_split_at(s, i, j, k),
    ensures
        forall|p: int|
            0 <= p < s.len() && p != i && p != j && p != k ==> is_ascii_digit(#[trigger] s[p]),
{
    assert forall|p: int|
        0 <= p < s.len() && p != i && p != j && p != k implies is_ascii_digit(#[trigger] s[p]) by {
        if p < i {
            assert(s.take(i)[p] == s[p]);
        } else if p < j {
            assert(s.subrange(i + 1, j)[p - i - 1] == s[p]);
        } else if p < k {
            assert(s.subrange(j + 1, k)[p - j - 1] == s[p]);
        } else {
            assert(s.subrange(k + 1, s.len() as int)[p - k - 1] == s[p]);
        }
    }
}

/// An IPv4 literal decomposes at exactly one triple of dot positions.
proof fn lemma_ipv4_split_unique(s: Seq<u8>, i1: int, j1: int, k1: int, i2: int, j2: int, k2: int)
    requires
        ipv4_split_at(s, i1, j1, k1),
        ipv4_split_at(s, i2, j2, k2),
    ensures
        i1 == i2 && j1 == j2 && k1 == k2,
{
    lemma_split_digits(s, i1, j1, k1);
    lemma_split_digits(s, i2, j2, k2);
    assert(!is_ascii_digit(ASCII_DOT));
}

/// Parses a dotted-quad IPv4 literal; succeeds exactly on well-formed
/// literals and returns their four octet values.
pub fn parse_ipv4(s: &[u8]) -> (r: Option<(u8, u8, u8, u8)>)
    ensures
        (r is Some) <==> is_ipv4_literal(s@),
        r matches Some(h) ==> h == ipv4_octets(s@),
{
    let n = s.len();
    let mut count: usize = 0;
    let mut d1: usize = 0;
    let mut d2: usize = 0;
    let mut d3: usize = 0;
    let mut p: usize = 0;
    while p < n
        invariant
            p <= n == s@.len(),
            count <= 3,
            count >= 1 ==> d1 < p && s@[d1 as int] == ASCII_DOT,
            count >= 2 ==> d1 < d2 < p && s@[d2 as int] == ASCII_DOT,
            count == 3 ==> d2 < d3 < p && s@[d3 as int] == ASCII_DOT,
            forall|q: int|
                0 <= q < p ==> (s@[q] == ASCII_DOT <==> ((count >= 1 && q == d1) || (count >= 2
                    && q == d2) || (count >= 3 && q == d3))),
        decreases n - p,
    {
        if s[p] == ASCII_DOT {
            if count == 3 {
                // A fourth dot: no decomposition into three dots and four
                // all-digit octets can exist.
                proof {
                    if is_ipv4_literal(s@) {
                        let (i, j, k) = choose|i: int, j: int, k: int| ipv4_split_at(s@, i, j, k);
                        lemma_split_digits(s@, i, j, k);
                        assert(!is_ascii_digit(ASCII_DOT));
                        assert(false);
                    }
                }
                return None;
            } else if count == 0 {
                d1 = p;
            } else if count == 1 {
                d2 = p;
            } else {
                d3 = p;
            }
            count += 1;
        }
        p += 1;
    }
    if count != 3 {
        proof {
            if is_ipv4_literal(s@) {
                let (i, j, k) = choose|i: int, j: int, k: int| ipv4_split_at(s@, i, j, k);
                lemma_split_digits(s@, i, j, k);
                assert(!is_ascii_digit(ASCII_DOT));
                assert(s@[i] == ASCII_DOT && s@[j] == ASCII_DOT && s@[k] == ASCII_DOT);
                assert(false);
            }
        }
        return None;
    }
    let o1 = parse_octet(s, 0, d1);
    let o2 = parse_octet(s, d1 + 1, d2);
    let o3 = parse_octet(s, d2 + 1, d3);
    let o4 = parse_octet(s, d3 + 1, n);
    proof {
        assert(s@.subrange(0, d1 as int) =~= s@.take(d1 as int));
    }
    match (o1, o2, o3, o4) {
        (Some(a), Some(b), Some(c), Some(d)) => {
            proof {
                assert(ipv4_split_at(s@, d1 as int, d2 as int, d3 as int));
                let (i, j, k) = choose|i: int, j: int, k: int| ipv4_split_at(s@, i, j, k);
                lemma_ipv4_split_unique(s@, d1 as int, d2 as int, d3 as int, i, j, k);
            }
            Some((a, b, c, d))
        },
        _ => {
            proof {
                if is_ipv4_literal(s@) {
                    let (i, j, k) = choose|i: int, j: int, k: int| ipv4_split_at(s@, i, j, k);
                    lemma_split_digits(s@, i, j, k);
                    assert(!is_ascii_digit(ASCII_DOT));
                    assert(i == d1 && j == d2 && k == d3);
                    assert(false);
                }
            }
            None
        },
    }
}

/// How resolving a textual dial target can fail.
#[derive(Clone, Copy, PartialEq, Eq, Structural, Debug)]
pub enum ResolveError {
    /// Name resolution yielded no address at all.
    NotFound,
    /// Name resolution yielded only non-IPv4 addresses.
    Unsupported,
    /// The text after the colon is not a decimal port below 65536.
    InvalidPort,
}

/// `i` is the first colon of `s`.
pub open spec fn first_colon_at(s: Seq<u8>, i: int) -> bool {
    &&& 0 <= i < s.len()
    &&& s[i] == ASCII_COLON
    &&& forall|q: int| 0 <= q < i ==> s[q] != ASCII_COLON
}

pub open spec fn has_colon(s: Seq<u8>) -> bool {
    exists|i: int| first_colon_at(s, i)
}

pub open spec fn first_colon(s: Seq<u8>) -> int {
    choose|i: int| first_colon_at(s, i)
}

/// `s` is a decimal TCP port: non-empty digits valued below 65536.
pub open spec fn is_port(s: Seq<u8>) -> bool {
    &&& s.len() >= 1
    &&& all_digits(s)
    &&& digits_val(s) <= 65535
}

/// The host half of a textual `host[:port]`.
pub open spec fn host_part(s: Seq<u8>) -> Seq<u8> {
    if has_colon(s) {
        s.take(first_colon(s))
    } else {
        s
    }
}

/// Whether the port half of a textual `host[:port]` is absent or well formed.
pub open spec fn port_part_ok(s: Seq<u8>) -> bool {
    !has_colon(s) || is_port(s.skip(first_colon(s) + 1))
}

/// The port a textual `host[:port]` names, or the default when none is given.
pub open spec fn port_value(s: Seq<u8>, default_port: u16) -> int {
    if has_colon(s) {
        digits_val(s.skip(first_colon(s) + 1))
    } else {
        default_port as int
    }
}

fn copy_range(s: &[u8], start: usize, end: usize) -> (r: Vec<u8>)
    requires
        start <= end <= s@.len(),
    ensures
        r@ == s@.subrange(start as int, end as int),
{
    let mut r: Vec<u8> = Vec::new();
    let mut i: usize = start;
    while i < end
        invariant
            start <= i <= end <= s@.len(),
            r@ == s@.subrange(start as int, i as int),
        decreases end - i,
    {
        r.push(s[i]);
        proof {
            assert(r@ =~= s@.subrange(start as int, i + 1));
        }
        i += 1;
    }
    r
}

/// Splits a textual `host[:port]` at its first colon. Without a colon the
/// whole text is the host and the port is the supplied default; with one,
/// the digits after it must name a port below 65536, else the target is
/// rejected as malformed.
pub fn split_host_port(s: &[u8], default_port: u16) -> (r: Result<(Vec<u8>, u16), ResolveError>)
    ensures
        (r is Ok) <==> port_part_ok(s@),
        r matches Ok((host, port)) ==> host@ == host_part(s@) && port == port_value(
            s@,
            default_port,
        ),
        r matches Err(e) ==> e == ResolveError::InvalidPort,
{
    let n = s.len();
    let mut p: usize = 0;
    while p < n
        invariant
            p <= n == s@.len(),
            forall|q: int| 0 <= q < p ==> s@[q] != ASCII_COLON,
        decreases n - p,
    {
        if s[p] == ASCII_COLON {
            proof {
                assert(first_colon_at(s@, p as int));
                assert(first_colon_at(s@, first_colon(s@)));
                assert(first_colon(s@) == p as int);
            }
            let port = match parse_decimal_range(s, p + 1, n, 65535) {
                Some(v) => v as u16,
                None => {
                    proof {
                        assert(s@.subrange(p + 1, n as int) =~= s@.skip(p + 1));
                    }
                    return Err(ResolveError::InvalidPort);
                },
            };
            let host = copy_range(s, 0, p);
            proof {
                assert(s@.subrange(p + 1, n as int) =~= s@.skip(p + 1));
                assert(s@.subrange(0, p as int) =~= s@.take(p as int));
            }
            return Ok((host, port));
        }
        p += 1;
    }
    proof {
        assert(!has_colon(s@));
    }
    let host = copy_range(s, 0, n);
    proof {
        assert(s@.subrange(0, n as int) =~= s@);
    }
    Ok((host, default_port))
}

/// One result of name resolution, reduced to what the resolver reads:
/// either an IPv4 address or an address of some other family.
#[derive(Clone, Copy, PartialEq, Eq, Structural, Debug)]
pub enum Candidate {
    V4(u8, u8, u8, u8),
    Other,
}

/// `i` is the first IPv4 entry among the resolution results.
pub open spec fn first_v4_at(cands: Seq<Candidate>, i: int) -> bool {
    &&& 0 <= i < cands.len()
    &&& cands[i] is V4
    &&& forall|q: int| 0 <= q < i ==> !(#[trigger] cands[q] is V4)
}

pub open spec fn first_v4(cands: Seq<Candidate>) -> int {
    choose|i: int| first_v4_at(cands, i)
}

/// Picks the first IPv4 result of name resolution, deterministically, and
/// pairs it with the given port. Fails with `NotFound` when resolution
/// yielded nothing and with `Unsupported` when only non-IPv4 results exist.
pub fn select_ipv4(cands: &Vec<Candidate>, port: u16) -> (r: Result<NetworkAddress, ResolveError>)
    ensures
        (r is Ok) <==> exists|i: int| first_v4_at(cands@, i),
        r matches Ok(a) ==> a.wf() && a.spec_port() == port && first_v4_at(cands@, first_v4(cands@))
            && Candidate::V4(
            a.spec_host().0,
            a.spec_host().1,
            a.spec_host().2,
            a.spec_host().3,
        ) == cands@[first_v4(cands@)],
        r matches Err(e) ==> (e == ResolveError::NotFound <==> cands@.len() == 0) && (e
            == ResolveError::Unsupported <==> cands@.len() > 0),
{
    let n = cands.len();
    let mut p: usize = 0;
    while p < n
        invariant
            p <= n == cands@.len(),
            forall|q: int| 0 <= q < p ==> !(#[trigger] cands@[q] is V4),
        decreases n - p,
    {
        match cands[p] {
            Candidate::V4(a, b, c, d) => {
                proof {
                    assert(first_v4_at(cands@, p as int));
                    assert(first_v4_at(cands@, first_v4(cands@)));
                    assert(first_v4(cands@) == p as int);
                }
                return Ok(NetworkAddress::new(a, b, c, d, port));
            },
            Candidate::Other => {},
        }
        p += 1;
    }
    if n == 0 {
        Err(ResolveError::NotFound)
    } else {
        Err(ResolveError::Unsupported)
    }
}

/// Resolves a textual `host[:port]` whose host is written as an IPv4
/// literal. Returns the structured address for such a host, `Ok(None)`
/// when the host needs name resolution by a collaborator (whose results
/// then go through `select_ipv4`), and `Err(InvalidPort)` for a malformed
/// port half.
pub fn resolve_literal(s: &[u8], default_port: u16) -> (r: Result<
    Option<NetworkAddress>,
    ResolveError,
>)
    ensures
        (r is Err) <==> !port_part_ok(s@),
        r matches Err(e) ==> e == ResolveError::InvalidPort,
        r matches Ok(o) ==> ((o is Some) <==> is_ipv4_literal(host_part(s@))),
        r matches Ok(Some(a)) ==> a.wf() && a.spec_port() == port_value(s@, default_port)
            && a.spec_host() == ipv4_octets(host_part(s@)),
{
    let (host, port) = match split_host_port(s, default_port) {
        Ok(hp) => hp,
        Err(e) => {
            return Err(e);
        },
    };
    match parse_ipv4(host.as_slice()) {
        Some((a, b, c, d)) => Ok(Some(NetworkAddress::new(a, b, c, d, port))),
        None => Ok(None),
    }
}

} // verus!
