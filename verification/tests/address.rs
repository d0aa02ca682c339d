use netflow_query_api::address::{any_contains, IpAddr, IpNetwork};

fn v4(a: u8, b: u8, c: u8, d: u8) -> IpAddr {
    IpAddr::V4(u32::from_be_bytes([a, b, c, d]))
}

#[test]
fn dotted_decimal_is_read_and_written() {
    assert_eq!(IpAddr::parse("10.1.2.3"), Some(v4(10, 1, 2, 3)));
    assert_eq!(v4(10, 1, 2, 3).to_text(), "10.1.2.3");
    assert_eq!(v4(255, 0, 10, 100).to_text(), "255.0.10.100");
}

#[test]
fn ipv6_is_written_in_its_short_form() {
    assert_eq!(IpAddr::parse("2001:DB8:0:0:0:0:0:1").unwrap().to_text(), "2001:db8::1");
    assert_eq!(IpAddr::V6(1).to_text(), "::1");
    assert_eq!(IpAddr::V6(0).to_text(), "::");
    assert_eq!(IpAddr::V6(0xffff_0a01_0203).to_text(), "::ffff:10.1.2.3");
}

#[test]
fn written_addresses_are_read_back() {
    let addresses = [
        v4(0, 0, 0, 0),
        v4(255, 255, 255, 255),
        v4(192, 168, 0, 1),
        IpAddr::V6(0),
        IpAddr::V6(u128::MAX),
        IpAddr::V6(0x2001_0db8_0000_0000_0001_0000_0000_0001),
        IpAddr::V6(0xffff_0a01_0203),
    ];
    for ip in addresses {
        assert_eq!(IpAddr::parse(&ip.to_text()), Some(ip));
    }
}

#[test]
fn what_is_no_address_is_not_read() {
    for text in ["", "not-an-ip", "10.1.2", "10.1.2.300", "10.1.2.3/32", " 10.1.2.3", "01.2.3.4", "::1/128", "1:2"] {
        assert_eq!(IpAddr::parse(text), None);
    }
}

#[test]
fn bare_address_is_the_network_of_that_address() {
    let bare = IpNetwork::parse("10.0.0.5").unwrap();
    assert_eq!(bare, IpNetwork { addr: v4(10, 0, 0, 5), prefix: 32 });
    assert_eq!(IpNetwork::parse("10.0.0.5/32"), Some(bare));
    assert_eq!(bare.to_text(), "10.0.0.5/32");
    assert!(bare.contains(v4(10, 0, 0, 5)));
    assert!(!bare.contains(v4(10, 0, 0, 4)));

    let bare = IpNetwork::parse("::1").unwrap();
    assert_eq!(IpNetwork::parse("::1/128"), Some(bare));
    assert_eq!(bare.to_text(), "::1/128");
}

#[test]
fn network_covers_the_addresses_with_its_prefix() {
    let net = IpNetwork::parse("10.1.9.32/16").unwrap();
    assert!(net.contains(v4(10, 1, 0, 0)));
    assert!(net.contains(v4(10, 1, 255, 255)));
    assert!(!net.contains(v4(10, 2, 0, 0)));
    assert!(!net.contains(IpAddr::V6(0x0a01_0000)));

    let net = IpNetwork::parse("2001:db8::/33").unwrap();
    assert!(net.contains(IpAddr::V6(0x2001_0db8_7fff_0000_0000_0000_0000_0000)));
    assert!(!net.contains(IpAddr::V6(0x2001_0db8_8000_0000_0000_0000_0000_0000)));
}

#[test]
fn empty_prefix_covers_the_family() {
    let net = IpNetwork::parse("0.0.0.0/0").unwrap();
    assert!(net.contains(v4(255, 255, 255, 255)));
    assert!(!net.contains(IpAddr::V6(0)));
    assert!(IpNetwork::parse("::/0").unwrap().contains(IpAddr::V6(u128::MAX)));
}

#[test]
fn what_is_no_network_is_not_read() {
    for text in ["10.0.0.0/33", "::1/129", "10.0.0.0/8/8", "10.0.0.0/", "/8", "proxy"] {
        assert_eq!(IpNetwork::parse(text), None);
    }
}

#[test]
fn list_covers_what_one_of_its_networks_covers() {
    let nets = vec![
        IpNetwork::parse("10.0.0.0/8").unwrap(),
        IpNetwork::parse("127.0.0.1").unwrap(),
    ];
    assert!(any_contains(&nets, v4(10, 9, 8, 7)));
    assert!(any_contains(&nets, v4(127, 0, 0, 1)));
    assert!(!any_contains(&nets, v4(127, 0, 0, 2)));
    assert!(!any_contains(&Vec::new(), v4(127, 0, 0, 1)));
}
