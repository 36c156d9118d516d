use resolver::IpAddress;
use resolver::Ipv4Address;
use resolver::Ipv6Address;
use resolver::SockAddr;
use resolver::SocketAddrs;

fn one(host: &str, port: u16) -> Option<Vec<SockAddr>> {
    SocketAddrs::try_parse(host, port).map(|s| s.to_vec())
}

fn ip6(g: [u16; 8]) -> IpAddress {
    IpAddress::V6(Ipv6Address {
        g0: g[0],
        g1: g[1],
        g2: g[2],
        g3: g[3],
        g4: g[4],
        g5: g[5],
        g6: g[6],
        g7: g[7],
    })
}

#[test]
fn parses_ipv4_literal_with_port() {
    let got = one("127.0.0.1", 443).expect("a v4 literal");
    assert_eq!(
        got,
        vec![SockAddr {
            ip: IpAddress::V4(Ipv4Address { a: 127, b: 0, c: 0, d: 1 }),
            port: 443,
        }]
    );
}

#[test]
fn parses_ipv4_bounds() {
    let got = one("255.255.255.255", 0).unwrap();
    assert_eq!(
        got[0].ip,
        IpAddress::V4(Ipv4Address { a: 255, b: 255, c: 255, d: 255 })
    );
    let got = one("0.0.0.0", 1).unwrap();
    assert_eq!(got[0].ip, IpAddress::V4(Ipv4Address { a: 0, b: 0, c: 0, d: 0 }));
}

#[test]
fn rejects_malformed_ipv4() {
    assert!(one("256.0.0.1", 0).is_none());
    assert!(one("01.2.3.4", 0).is_none());
    assert!(one("1.2.3", 0).is_none());
    assert!(one("1.2.3.4.5", 0).is_none());
    assert!(one("1.2.3.", 0).is_none());
    assert!(one(".1.2.3.4", 0).is_none());
    assert!(one("1.2.3.4 ", 0).is_none());
    assert!(one("a.b.c.d", 0).is_none());
    assert!(one("", 0).is_none());
    assert!(one("example.com", 80).is_none());
}

#[test]
fn parses_ipv6_loopback() {
    let got = one("::1", 80).expect("a v6 literal");
    assert_eq!(
        got,
        vec![SockAddr { ip: ip6([0, 0, 0, 0, 0, 0, 0, 1]), port: 80 }]
    );
}

#[test]
fn parses_full_ipv6() {
    let got = one("1:2:3:4:5:6:7:8", 1).unwrap();
    assert_eq!(got[0].ip, ip6([1, 2, 3, 4, 5, 6, 7, 8]));
    let got = one("2001:db8:0:0:8:800:200C:417A", 2).unwrap();
    assert_eq!(got[0].ip, ip6([0x2001, 0xdb8, 0, 0, 8, 0x800, 0x200c, 0x417a]));
}

#[test]
fn parses_compressed_ipv6() {
    let got = one("2001:db8::8:800:200c:417a", 0).unwrap();
    assert_eq!(got[0].ip, ip6([0x2001, 0xdb8, 0, 0, 8, 0x800, 0x200c, 0x417a]));
    let got = one("::", 0).unwrap();
    assert_eq!(got[0].ip, ip6([0, 0, 0, 0, 0, 0, 0, 0]));
    let got = one("1::", 0).unwrap();
    assert_eq!(got[0].ip, ip6([1, 0, 0, 0, 0, 0, 0, 0]));
    let got = one("1:2:3:4:5:6:7::", 0).unwrap();
    assert_eq!(got[0].ip, ip6([1, 2, 3, 4, 5, 6, 7, 0]));
    let got = one("::1:2:3:4:5:6:7", 0).unwrap();
    assert_eq!(got[0].ip, ip6([0, 1, 2, 3, 4, 5, 6, 7]));
}

#[test]
fn parses_ipv6_with_embedded_ipv4() {
    let got = one("::ffff:1.2.3.4", 0).unwrap();
    assert_eq!(got[0].ip, ip6([0, 0, 0, 0, 0, 0xffff, 0x0102, 0x0304]));
    let got = one("1:2:3:4:5:6:7.8.9.10", 0).unwrap();
    assert_eq!(got[0].ip, ip6([1, 2, 3, 4, 5, 6, 0x0708, 0x090a]));
}

#[test]
fn rejects_malformed_ipv6() {
    assert!(one(":", 0).is_none());
    assert!(one(":::", 0).is_none());
    assert!(one("1::2::3", 0).is_none());
    assert!(one("1:2:3:4:5:6:7", 0).is_none());
    assert!(one("1:2:3:4:5:6:7:8:9", 0).is_none());
    assert!(one("1:2:3:4:5:6:7:8::", 0).is_none());
    assert!(one("::1:2:3:4:5:6:7:8", 0).is_none());
    assert!(one("12345::", 0).is_none());
    assert!(one("g::1", 0).is_none());
    assert!(one("1.2.3.4::", 0).is_none());
    assert!(one("::1%eth0", 0).is_none());
    assert!(one("1:2", 0).is_none());
}
