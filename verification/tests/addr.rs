use discovery::addr::{pb_to_sock_addr, IPv6, Ip, IpAddr, IpAddress, SocketAddr, TcpAddress};

fn tcp(ip: Ip, port: u32) -> TcpAddress {
    TcpAddress { ip: Some(IpAddress { ip: Some(ip) }), port }
}

#[test]
fn ipv4_address_keeps_octets_and_port() {
    assert_eq!(
        pb_to_sock_addr(tcp(Ip::Ipv4(0x0a01_0203), 8080)),
        Some(SocketAddr { ip: IpAddr::V4([10, 1, 2, 3]), port: 8080 })
    );
    assert_eq!(
        pb_to_sock_addr(tcp(Ip::Ipv4(0xffff_ffff), 0)),
        Some(SocketAddr { ip: IpAddr::V4([255, 255, 255, 255]), port: 0 })
    );
}

#[test]
fn ipv6_address_keeps_octets_and_port() {
    let v6 = IPv6 { first: 0x2001_0db8_85a3_0042, last: 0x1000_8a2e_0370_7334 };
    let octets = [
        0x20, 0x01, 0x0d, 0xb8, 0x85, 0xa3, 0x00, 0x42, 0x10, 0x00, 0x8a, 0x2e, 0x03, 0x70, 0x73,
        0x34,
    ];
    assert_eq!(
        pb_to_sock_addr(tcp(Ip::Ipv6(v6), 443)),
        Some(SocketAddr { ip: IpAddr::V6(octets), port: 443 })
    );
}

#[test]
fn octets_spell_the_address() {
    let addr = pb_to_sock_addr(tcp(Ip::Ipv4(0x7f00_0001), 1)).unwrap();
    match addr.ip {
        IpAddr::V4(octets) => assert_eq!(u32::from_be_bytes(octets), 0x7f00_0001),
        IpAddr::V6(_) => panic!("not an IPv4 address"),
    }
    let v6 = IPv6 { first: 0xfe80_0000_0000_0001, last: 0x0203_0405_0607_0809 };
    let addr = pb_to_sock_addr(tcp(Ip::Ipv6(v6), 1)).unwrap();
    match addr.ip {
        IpAddr::V6(octets) => assert_eq!(
            u128::from_be_bytes(octets),
            0xfe80_0000_0000_0001_0203_0405_0607_0809
        ),
        IpAddr::V4(_) => panic!("not an IPv6 address"),
    }
}

#[test]
fn port_keeps_its_low_sixteen_bits() {
    let addr = pb_to_sock_addr(tcp(Ip::Ipv4(1), 65_536 + 80)).unwrap();
    assert_eq!(addr.port, 80);
    let addr = pb_to_sock_addr(tcp(Ip::Ipv4(1), u32::MAX)).unwrap();
    assert_eq!(addr.port, 65_535);
}

#[test]
fn address_without_ip_is_none() {
    assert_eq!(pb_to_sock_addr(TcpAddress { ip: None, port: 80 }), None);
    let empty = TcpAddress { ip: Some(IpAddress { ip: None }), port: 80 };
    assert_eq!(pb_to_sock_addr(empty), None);
}

#[test]
fn different_ips_give_different_addresses() {
    let low = pb_to_sock_addr(tcp(Ip::Ipv4(1), 80));
    let high = pb_to_sock_addr(tcp(Ip::Ipv4(0x0100_0000), 80));
    let wide = pb_to_sock_addr(tcp(Ip::Ipv6(IPv6 { first: 0, last: 1 }), 80));
    assert_ne!(low, high);
    assert_ne!(low, wide);
    assert_ne!(high, wide);
}
