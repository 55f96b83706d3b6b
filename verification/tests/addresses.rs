use quic_perf::decimal::NumberError;
use quic_perf::multiaddr::{
    get_container_ip, listener_multiaddr, multiaddr_error_message, parse_ipv4, parse_multiaddr,
    render_ipv4, Ipv4, MultiaddrError, ServerAddr, LISTEN_PORT,
};

fn ip(a: u8, b: u8, c: u8, d: u8) -> Ipv4 {
    Ipv4 { a, b, c, d }
}

#[test]
fn published_address_is_dialed() {
    let own = ip(172, 18, 0, 5);
    let text = listener_multiaddr(own);
    assert_eq!(text, "/ip4/172.18.0.5/udp/4001/quic-v1");
    assert_eq!(parse_multiaddr(&text), Ok(ServerAddr { ip: own, port: LISTEN_PORT }));
    assert_eq!(LISTEN_PORT, 4001);
}

#[test]
fn address_is_read_back_whatever_the_port() {
    for port in [0, 1, 80, 4001, 10000, 65535] {
        let text = format!("/ip4/{}/udp/{port}/quic-v1", render_ipv4(ip(10, 0, 0, 9)));
        assert_eq!(parse_multiaddr(&text), Ok(ServerAddr { ip: ip(10, 0, 0, 9), port }));
    }
}

#[test]
fn ipv4_text_is_read_back() {
    for address in [ip(0, 0, 0, 0), ip(255, 255, 255, 255), ip(10, 0, 200, 7), ip(1, 20, 100, 99)] {
        assert_eq!(parse_ipv4(&render_ipv4(address)), Some(address));
    }
    assert_eq!(render_ipv4(ip(10, 0, 200, 7)), "10.0.200.7");
}

#[test]
fn only_four_plain_numbers_are_an_address() {
    assert_eq!(parse_ipv4("127.0.0.1"), Some(ip(127, 0, 0, 1)));
    let none = [
        "", "1", "1.2.3", "1.2.3.4.5", "1.2.3.", ".1.2.3", "1..2.3", "256.0.0.1", "1.2.3.999",
        "01.2.3.4", "00.0.0.0", "1.2.3.04", "+1.2.3.4", "-1.2.3.4", "1.2.3.4 ", " 1.2.3.4", "a.b.c.d",
        "1.2.3.0004", "::1", "0x1.2.3.4",
    ];
    for text in none {
        assert_eq!(parse_ipv4(text), None, "{text}");
    }
}

#[test]
fn only_the_third_and_the_fifth_part_count() {
    let expected = Ok(ServerAddr { ip: ip(1, 2, 3, 4), port: 80 });
    assert_eq!(parse_multiaddr("/ip4/1.2.3.4/udp/80/quic-v1"), expected);
    assert_eq!(parse_multiaddr("/ip4/1.2.3.4/udp/80"), expected);
    assert_eq!(parse_multiaddr("//1.2.3.4//80"), expected);
    assert_eq!(parse_multiaddr("x/y/1.2.3.4/tcp/+80/p2p/more"), expected);
}

#[test]
fn short_text_is_no_address() {
    for text in ["", "/", "/ip4/1.2.3.4/udp", "1.2.3.4:80"] {
        assert_eq!(parse_multiaddr(text), Err(MultiaddrError::TooShort), "{text}");
    }
}

#[test]
fn bad_ip_is_reported_before_a_bad_port() {
    assert_eq!(parse_multiaddr("/ip4/1.2.3/udp/80"), Err(MultiaddrError::BadIp));
    assert_eq!(parse_multiaddr("/ip4/host/udp/port"), Err(MultiaddrError::BadIp));
}

#[test]
fn bad_port_is_reported_with_its_reason() {
    let reasons = [
        ("", NumberError::Empty),
        ("x", NumberError::InvalidDigit),
        ("-1", NumberError::InvalidDigit),
        ("65536", NumberError::PosOverflow),
    ];
    for (port, reason) in reasons {
        let text = format!("/ip4/1.2.3.4/udp/{port}/quic-v1");
        assert_eq!(parse_multiaddr(&text), Err(MultiaddrError::BadPort(reason)), "{text}");
    }
    let largest = Ok(ServerAddr { ip: ip(1, 2, 3, 4), port: 65535 });
    assert_eq!(parse_multiaddr("/ip4/1.2.3.4/udp/65535"), largest);
}

#[test]
fn errors_are_told_in_words() {
    let message = |e| multiaddr_error_message(e, "/x");
    assert_eq!(message(MultiaddrError::TooShort), "invalid multiaddr: /x");
    assert_eq!(message(MultiaddrError::BadIp), "invalid IPv4 address syntax");
    let of_standard_library = |port: &str| port.parse::<u16>().unwrap_err().to_string();
    assert_eq!(message(MultiaddrError::BadPort(NumberError::Empty)), of_standard_library(""));
    assert_eq!(message(MultiaddrError::BadPort(NumberError::InvalidDigit)), of_standard_library("x"));
    assert_eq!(
        message(MultiaddrError::BadPort(NumberError::PosOverflow)),
        of_standard_library("65536")
    );
}

#[test]
fn address_that_nobody_can_reach_is_not_published() {
    assert_eq!(get_container_ip(Some(ip(172, 18, 0, 5))), ip(172, 18, 0, 5));
    assert_eq!(get_container_ip(Some(ip(127, 0, 0, 1))), ip(0, 0, 0, 0));
    assert_eq!(get_container_ip(Some(ip(127, 255, 1, 2))), ip(0, 0, 0, 0));
    assert_eq!(get_container_ip(Some(ip(0, 0, 0, 0))), ip(0, 0, 0, 0));
    assert_eq!(get_container_ip(Some(ip(0, 0, 0, 1))), ip(0, 0, 0, 1));
    assert_eq!(get_container_ip(None), ip(0, 0, 0, 0));
}
