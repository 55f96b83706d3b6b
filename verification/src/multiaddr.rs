//! The address under which a listener is found, as text and as numbers.

use crate::decimal::{
    all_digits, decimal, decimal_text, decimal_value, is_digit, law_plain_digits_are_the_text,
    law_text_is_read_back, lemma_decimal_text, lemma_digits_number,
    parse_unsigned, unsigned_digits, unsigned_number, NumberError,
};
use crate::text::{
    joined, law_pieces_are_the_text, lemma_pieces_of_concatenation, lemma_single_piece, pieces,
    split, texts,
};
use vstd::prelude::*;

verus! {

/// The UDP port on which a listener waits.
pub const LISTEN_PORT: u16 = 4001;

/// An IPv4 address, its four numbers from left to right.
#[derive(Clone, Copy, Debug, PartialEq, Eq, Structural)]
pub struct Ipv4 {
    pub a: u8,
    pub b: u8,
    pub c: u8,
    pub d: u8,
}

/// Where to send packets.
#[derive(Clone, Copy, Debug, PartialEq, Eq, Structural)]
pub struct ServerAddr {
    pub ip: Ipv4,
    pub port: u16,
}

/// Why a text is not the address of a listener.
#[derive(Clone, Copy, Debug, PartialEq, Eq, Structural)]
pub enum MultiaddrError {
    /// Fewer parts than an address, a protocol and a port need.
    TooShort,
    /// The part for the IPv4 address is none.
    BadIp,
    /// The part for the port is no port number.
    BadPort(NumberError),
}

/// One of the four numbers of an IPv4 address: one to three digits, at most 255,
/// and no zero in front of another digit.
pub open spec fn octet_of(s: Seq<char>) -> Option<u8> {
    if 1 <= s.len() <= 3 && all_digits(s) && (s[0] == '0' ==> s.len() == 1) && decimal_value(s)
        <= 255 {
        Some(decimal_value(s) as u8)
    } else {
        None
    }
}

/// The IPv4 address that a text says: four numbers with a dot between two
/// neighbours.
pub open spec fn ipv4_of(s: Seq<char>) -> Option<Ipv4> {
    let p = pieces(s, '.');
    if p.len() == 4 && octet_of(p[0]) is Some && octet_of(p[1]) is Some && octet_of(p[2]) is Some
        && octet_of(p[3]) is Some {
        Some(
            Ipv4 {
                a: octet_of(p[0])->0,
                b: octet_of(p[1])->0,
                c: octet_of(p[2])->0,
                d: octet_of(p[3])->0,
            },
        )
    } else {
        None
    }
}

/// The usual text of an IPv4 address.
pub open spec fn ipv4_text(ip: Ipv4) -> Seq<char> {
    decimal_text(ip.a as nat) + seq!['.'] + decimal_text(ip.b as nat) + seq!['.'] + decimal_text(
        ip.c as nat,
    ) + seq!['.'] + decimal_text(ip.d as nat)
}

/// The text of an address: the IPv4 address, the UDP port and the protocol.
pub open spec fn multiaddr_text(addr: ServerAddr) -> Seq<char> {
    "/ip4/"@ + ipv4_text(addr.ip) + "/udp/"@ + decimal_text(addr.port as nat) + "/quic-v1"@
}

/// The address in a text of the form `/ip4/{IP}/udp/{PORT}/quic-v1`. Only the
/// third and the fifth part count; the IPv4 address is looked at first.
pub open spec fn multiaddr_of(s: Seq<char>) -> Result<ServerAddr, MultiaddrError> {
    let p = pieces(s, '/');
    if p.len() < 5 {
        Err(MultiaddrError::TooShort)
    } else {
        match ipv4_of(p[2]) {
            None => Err(MultiaddrError::BadIp),
            Some(ip) => match unsigned_number(p[4], u16::MAX as nat) {
                Err(e) => Err(MultiaddrError::BadPort(e)),
                Ok(port) => Ok(ServerAddr { ip, port: port as u16 }),
            },
        }
    }
}

/// An address of the machine that other machines can reach.
pub open spec fn reachable(ip: Ipv4) -> bool {
    ip.a != 127 && ip != (Ipv4 { a: 0, b: 0, c: 0, d: 0 })
}

proof fn lemma_octet_text(n: u8)
    ensures
        octet_of(decimal_text(n as nat)) == Some(n),
        !decimal_text(n as nat).contains('.'),
        !decimal_text(n as nat).contains('/'),
{
    let t = decimal_text(n as nat);
    lemma_decimal_text(n as nat);
    reveal_with_fuel(decimal_text, 4);
    assert(t.len() <= 3);
    assert forall|i: int| 0 <= i < t.len() implies t[i] != '.' && t[i] != '/' by {
        assert(is_digit(t[i]));
    }
}

proof fn lemma_ipv4_text(ip: Ipv4)
    ensures
        ipv4_of(ipv4_text(ip)) == Some(ip),
        !ipv4_text(ip).contains('/'),
{
    let (a, b, c, d) = (
        decimal_text(ip.a as nat),
        decimal_text(ip.b as nat),
        decimal_text(ip.c as nat),
        decimal_text(ip.d as nat),
    );
    lemma_octet_text(ip.a);
    lemma_octet_text(ip.b);
    lemma_octet_text(ip.c);
    lemma_octet_text(ip.d);
    lemma_single_piece(a, '.');
    lemma_single_piece(b, '.');
    lemma_single_piece(c, '.');
    lemma_single_piece(d, '.');
    let ab = a + seq!['.'] + b;
    let abc = ab + seq!['.'] + c;
    lemma_pieces_of_concatenation(a, b, '.');
    lemma_pieces_of_concatenation(ab, c, '.');
    lemma_pieces_of_concatenation(abc, d, '.');
    assert(abc + seq!['.'] + d =~= ipv4_text(ip));
    assert(pieces(ipv4_text(ip), '.') =~= seq![a, b, c, d]);
    let t = ipv4_text(ip);
    assert forall|i: int| 0 <= i < t.len() implies t[i] != '/' by {
        let (la, lb, lc) = (a.len() as int, b.len() as int, c.len() as int);
        if i < la {
            assert(t[i] == a[i]);
            assert(a.contains(a[i]));
        } else if la < i < la + 1 + lb {
            assert(t[i] == b[i - la - 1]);
            assert(b.contains(b[i - la - 1]));
        } else if la + 1 + lb < i < la + lb + lc + 2 {
            assert(t[i] == c[i - la - lb - 2]);
            assert(c.contains(c[i - la - lb - 2]));
        } else if la + lb + lc + 2 < i {
            assert(t[i] == d[i - la - lb - lc - 3]);
            assert(d.contains(d[i - la - lb - lc - 3]));
        }
    }
}

/// The usual text of an IPv4 address is read back as that address.
pub proof fn law_ipv4_is_read_back(ip: Ipv4)
    ensures
        ipv4_of(ipv4_text(ip)) == Some(ip),
{
    lemma_ipv4_text(ip);
}

proof fn lemma_port_text(port: u16)
    ensures
        !decimal_text(port as nat).contains('/'),
{
    let t = decimal_text(port as nat);
    lemma_decimal_text(port as nat);
    assert forall|i: int| 0 <= i < t.len() implies t[i] != '/' by {
        assert(is_digit(t[i]));
    }
}

/// The text of an address is read back as that address, whatever the port.
pub proof fn law_address_is_read_back(addr: ServerAddr)
    ensures
        multiaddr_of(multiaddr_text(addr)) == Ok::<ServerAddr, MultiaddrError>(addr),
{
    reveal_strlit("/ip4/");
    reveal_strlit("/udp/");
    reveal_strlit("/quic-v1");
    lemma_ipv4_text(addr.ip);
    lemma_port_text(addr.port);
    let none = Seq::<char>::empty();
    let ip4 = seq!['i', 'p', '4'];
    let address = ipv4_text(addr.ip);
    let udp = seq!['u', 'd', 'p'];
    let port = decimal_text(addr.port as nat);
    let quic = seq!['q', 'u', 'i', 'c', '-', 'v', '1'];
    lemma_single_piece(none, '/');
    lemma_single_piece(ip4, '/');
    lemma_single_piece(address, '/');
    lemma_single_piece(udp, '/');
    lemma_single_piece(port, '/');
    lemma_single_piece(quic, '/');
    let s1 = none + seq!['/'] + ip4;
    let s2 = s1 + seq!['/'] + address;
    let s3 = s2 + seq!['/'] + udp;
    let s4 = s3 + seq!['/'] + port;
    lemma_pieces_of_concatenation(none, ip4, '/');
    lemma_pieces_of_concatenation(s1, address, '/');
    lemma_pieces_of_concatenation(s2, udp, '/');
    lemma_pieces_of_concatenation(s3, port, '/');
    lemma_pieces_of_concatenation(s4, quic, '/');
    assert(s4 + seq!['/'] + quic =~= multiaddr_text(addr));
    assert(pieces(multiaddr_text(addr), '/') =~= seq![none, ip4, address, udp, port, quic]);
    law_text_is_read_back(addr.port as nat, u16::MAX as nat);
}

/// A dialer that reads what a listener published connects to that listener.
pub proof fn law_published_address_is_dialed(ip: Ipv4)
    ensures
        multiaddr_of(multiaddr_text(ServerAddr { ip, port: LISTEN_PORT })) == Ok::<
            ServerAddr,
            MultiaddrError,
        >(ServerAddr { ip, port: LISTEN_PORT }),
{
    law_address_is_read_back(ServerAddr { ip, port: LISTEN_PORT });
}

fn parse_octet(s: &str) -> (r: Option<u8>)
    ensures
        r == octet_of(s@),
{
    let len = s.unicode_len();
    if len < 1 || len > 3 {
        return None;
    }
    let first = s.get_char(0);
    if first == '0' && len != 1 {
        return None;
    }
    proof {
        lemma_digits_number(s@, 255);
        if first == '+' {
            assert(!is_digit(s@[0]));
        }
    }
    if first == '+' {
        return None;
    }
    match parse_unsigned(s, 255) {
        Ok(n) => Some(n as u8),
        Err(_) => None,
    }
}

/// Reads an IPv4 address.
pub fn parse_ipv4(s: &str) -> (r: Option<Ipv4>)
    ensures
        r == ipv4_of(s@),
{
    let parts = split(s, '.');
    assert(texts(parts@).len() == parts@.len());
    if parts.len() != 4 {
        return None;
    }
    assert(texts(parts@)[0] == parts@[0]@);
    assert(texts(parts@)[1] == parts@[1]@);
    assert(texts(parts@)[2] == parts@[2]@);
    assert(texts(parts@)[3] == parts@[3]@);
    match (
        parse_octet(parts[0]),
        parse_octet(parts[1]),
        parse_octet(parts[2]),
        parse_octet(parts[3]),
    ) {
        (Some(a), Some(b), Some(c), Some(d)) => Some(Ipv4 { a, b, c, d }),
        _ => None,
    }
}

/// Reads the address of a listener.
pub fn parse_multiaddr(multiaddr: &str) -> (r: Result<ServerAddr, MultiaddrError>)
    ensures
        r == multiaddr_of(multiaddr@),
{
    let parts = split(multiaddr, '/');
    assert(texts(parts@).len() == parts@.len());
    if parts.len() < 5 {
        return Err(MultiaddrError::TooShort);
    }
    assert(texts(parts@)[2] == parts@[2]@);
    assert(texts(parts@)[4] == parts@[4]@);
    match parse_ipv4(parts[2]) {
        None => Err(MultiaddrError::BadIp),
        Some(ip) => {
            proof {
                lemma_digits_number(
                    unsigned_digits(parts@[4]@),
                    u16::MAX as nat,
                );
            }
            match parse_unsigned(parts[4], u16::MAX as u64) {
                Ok(port) => Ok(ServerAddr { ip, port: port as u16 }),
                Err(e) => Err(MultiaddrError::BadPort(e)),
            }
        },
    }
}

/// The usual text of an IPv4 address.
pub fn render_ipv4(ip: Ipv4) -> (r: String)
    ensures
        r@ == ipv4_text(ip),
{
    proof {
        reveal_strlit(".");
    }
    let mut r = decimal(ip.a as u64);
    r.append(".");
    r.append(decimal(ip.b as u64).as_str());
    r.append(".");
    r.append(decimal(ip.c as u64).as_str());
    r.append(".");
    r.append(decimal(ip.d as u64).as_str());
    assert("."@ =~= seq!['.']);
    assert(r@ =~= ipv4_text(ip));
    r
}

/// What a listener at an address publishes: that address and the port on which it waits.
pub fn listener_multiaddr(ip: Ipv4) -> (r: String)
    ensures
        r@ == multiaddr_text(ServerAddr { ip, port: LISTEN_PORT }),
{
    let mut r = String::from_str("/ip4/");
    r.append(render_ipv4(ip).as_str());
    r.append("/udp/");
    r.append(decimal(LISTEN_PORT as u64).as_str());
    r.append("/quic-v1");
    r
}

/// The address that a listener publishes when the machine's default route goes
/// out from `candidate`: that address if others can reach it, and the
/// unspecified address otherwise.
pub fn get_container_ip(candidate: Option<Ipv4>) -> (r: Ipv4)
    ensures
        r == (match candidate {
            Some(ip) if reachable(ip) => ip,
            _ => Ipv4 { a: 0, b: 0, c: 0, d: 0 },
        }),
{
    let unspecified = Ipv4 { a: 0, b: 0, c: 0, d: 0 };
    match candidate {
        Some(ip) => if ip.a != 127 && ip != unspecified {
            ip
        } else {
            unspecified
        },
        None => unspecified,
    }
}

/// What to tell the user of a text that is not the address of a listener.
pub fn multiaddr_error_message(e: MultiaddrError, multiaddr: &str) -> (r: String)
    ensures
        r@ == (match e {
            MultiaddrError::TooShort => "invalid multiaddr: "@ + multiaddr@,
            MultiaddrError::BadIp => "invalid IPv4 address syntax"@,
            MultiaddrError::BadPort(
                NumberError::Empty,
            ) => "cannot parse integer from empty string"@,
            MultiaddrError::BadPort(
                NumberError::InvalidDigit,
            ) => "invalid digit found in string"@,
            MultiaddrError::BadPort(
                NumberError::PosOverflow,
            ) => "number too large to fit in target type"@,
        }),
{
    match e {
        MultiaddrError::TooShort => {
            let mut r = String::from_str("invalid multiaddr: ");
            r.append(multiaddr);
            r
        },
        MultiaddrError::BadIp => String::from_str("invalid IPv4 address syntax"),
        MultiaddrError::BadPort(n) => match n {
            NumberError::Empty => String::from_str("cannot parse integer from empty string"),
            NumberError::InvalidDigit => String::from_str("invalid digit found in string"),
            NumberError::PosOverflow => String::from_str("number too large to fit in target type"),
        },
    }
}

/// Only the usual text of an IPv4 address says that address.
pub proof fn law_only_the_usual_text_is_an_address(s: Seq<char>, ip: Ipv4)
    ensures
        ipv4_of(s) == Some(ip) <==> s == decimal_text(ip.a as nat) + seq!['.'] + decimal_text(
            ip.b as nat,
        ) + seq!['.'] + decimal_text(ip.c as nat) + seq!['.'] + decimal_text(ip.d as nat),
{
    lemma_ipv4_text(ip);
    assert(ipv4_text(ip) =~= decimal_text(ip.a as nat) + seq!['.'] + decimal_text(ip.b as nat)
        + seq!['.'] + decimal_text(ip.c as nat) + seq!['.'] + decimal_text(ip.d as nat));
    if ipv4_of(s) == Some(ip) {
        let p = pieces(s, '.');
        law_pieces_are_the_text(s, '.');
        lemma_octet_is_text(p[0], ip.a);
        lemma_octet_is_text(p[1], ip.b);
        lemma_octet_is_text(p[2], ip.c);
        lemma_octet_is_text(p[3], ip.d);
        reveal_with_fuel(joined, 5);
        assert(p.drop_last().drop_last().drop_last() =~= seq![p[0]]);
        assert(joined(p, seq!['.']) =~= p[0] + seq!['.'] + p[1] + seq!['.'] + p[2] + seq!['.']
            + p[3]);
    }
}

proof fn lemma_octet_is_text(p: Seq<char>, n: u8)
    requires
        octet_of(p) == Some(n),
    ensures
        p == decimal_text(n as nat),
{
    law_plain_digits_are_the_text(p);
}

/// What a text says as an address. Its parts lie between slashes; with fewer than five it
/// is too short. The third part must be the usual text of an IPv4 address, and the fifth a
/// number up to 65535; a bad address is told before a bad port. Nothing else counts.
pub proof fn law_which_texts_are_addresses(s: Seq<char>, addr: ServerAddr, e: NumberError)
    ensures
        ({
            let p = pieces(s, '/');
            let r = multiaddr_of(s);
            let has_ip = exists|ip: Ipv4| p[2] == #[trigger] ipv4_text(ip);
            let port = unsigned_number(p[4], 65535);
            &&& r == Err::<ServerAddr, MultiaddrError>(MultiaddrError::TooShort) <==> p.len() < 5
            &&& r == Err::<ServerAddr, MultiaddrError>(MultiaddrError::BadIp) <==> p.len() >= 5
                && !has_ip
            &&& r == Err::<ServerAddr, MultiaddrError>(MultiaddrError::BadPort(e)) <==> p.len() >= 5
                && has_ip && port == Err::<nat, NumberError>(e)
            &&& r == Ok::<ServerAddr, MultiaddrError>(addr) <==> p.len() >= 5 && p[2] == ipv4_text(
                addr.ip,
            ) && port == Ok::<nat, NumberError>(addr.port as nat)
        }),
{
    let p = pieces(s, '/');
    lemma_digits_number(unsigned_digits(p[4]), 65535);
    if ipv4_of(p[2]) is Some {
        law_only_the_usual_text_is_an_address(p[2], ipv4_of(p[2])->0);
        assert(p[2] == ipv4_text(ipv4_of(p[2])->0));
    }
    if exists|ip: Ipv4| p[2] == #[trigger] ipv4_text(ip) {
        let ip = choose|ip: Ipv4| p[2] == #[trigger] ipv4_text(ip);
        lemma_ipv4_text(ip);
    }
    lemma_ipv4_text(addr.ip);
}

/// The text of an address has the address, the port and the protocol in their places, and
/// different addresses have different texts.
pub proof fn law_address_text(a: ServerAddr, b: ServerAddr)
    ensures
        multiaddr_text(a) == "/ip4/"@ + decimal_text(a.ip.a as nat) + seq!['.'] + decimal_text(
            a.ip.b as nat,
        ) + seq!['.'] + decimal_text(a.ip.c as nat) + seq!['.'] + decimal_text(a.ip.d as nat)
            + "/udp/"@ + decimal_text(a.port as nat) + "/quic-v1"@,
        multiaddr_text(a) == multiaddr_text(b) ==> a == b,
{
    law_address_is_read_back(a);
    law_address_is_read_back(b);
    assert(multiaddr_text(a) =~= "/ip4/"@ + decimal_text(a.ip.a as nat) + seq!['.']
        + decimal_text(a.ip.b as nat) + seq!['.'] + decimal_text(a.ip.c as nat) + seq!['.']
        + decimal_text(a.ip.d as nat) + "/udp/"@ + decimal_text(a.port as nat) + "/quic-v1"@);
}

/// What others cannot reach is the loopback network and the unspecified address.
pub proof fn law_what_others_can_reach(ip: Ipv4)
    ensures
        !reachable(ip) <==> ip.a == 127 || (ip.a == 0 && ip.b == 0 && ip.c == 0 && ip.d == 0),
{
}

} // verus!
