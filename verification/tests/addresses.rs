use smartdns::ip::{parse_v4, parse_v6, IpAddr, IpNet, IpOrSet};

fn ip(text: &str) -> IpAddr {
    IpAddr::from_bytes(text.as_bytes()).unwrap()
}

#[test]
fn ipv4_text() {
    assert_eq!(parse_v4(b"93.184.216.34"), Some(0x5DB8D822));
    assert_eq!(parse_v4(b"0.0.0.0"), Some(0));
    assert_eq!(parse_v4(b"255.255.255.255"), Some(u32::MAX));
    assert_eq!(parse_v4(b"256.0.0.1"), None);
    assert_eq!(parse_v4(b"1.2.3"), None);
    assert_eq!(parse_v4(b"1.2.3.4.5"), None);
    assert_eq!(parse_v4(b"01.2.3.4"), None);
    assert_eq!(parse_v4(b"1.2.3.x"), None);
    assert_eq!(IpAddr::V4(0x5DB8D822).to_bytes(), b"93.184.216.34".to_vec());
}

#[test]
fn ipv6_text() {
    assert_eq!(parse_v6(b"::"), Some(0));
    assert_eq!(parse_v6(b"::1"), Some(1));
    assert_eq!(parse_v6(b"1::"), Some(1u128 << 112));
    assert_eq!(parse_v6(b"2001:db8::8a2e:370:7334"), Some(0x2001_0db8_0000_0000_0000_8a2e_0370_7334));
    assert_eq!(parse_v6(b"2001:DB8:0:0:0:0:0:1"), Some(0x2001_0db8_0000_0000_0000_0000_0000_0001));
    assert_eq!(parse_v6(b"1:2:3:4:5:6:7::"), Some(0x0001_0002_0003_0004_0005_0006_0007_0000));
    assert_eq!(parse_v6(b":1"), None);
    assert_eq!(parse_v6(b"1:"), None);
    assert_eq!(parse_v6(b"1::2::3"), None);
    assert_eq!(parse_v6(b"1:2:3:4:5:6:7:8:9"), None);
    assert_eq!(parse_v6(b"1:2:3:4:5:6:7::8"), None);
    assert_eq!(parse_v6(b"12345::"), None);
    assert_eq!(parse_v6(b"g::"), None);
    assert_eq!(parse_v6(b""), None);
    assert_eq!(
        IpAddr::V6(0x2001_0db8_0000_0000_0000_0000_0000_0001).to_bytes(),
        b"2001:db8:0:0:0:0:0:1".to_vec()
    );
}

#[test]
fn addresses_read_back() {
    for a in [IpAddr::V4(0), IpAddr::V4(0xC0A80001), IpAddr::V6(0), IpAddr::V6(u128::MAX), IpAddr::V6(0xfe80 << 112 | 1)] {
        assert_eq!(IpAddr::from_bytes(&a.to_bytes()), Some(a));
    }
    assert!(ip("10.0.0.1").is_ipv4());
    assert!(ip("::1").is_ipv6());
}

#[test]
fn blocks_and_what_lies_in_them() {
    let net = IpNet::from_bytes(b"192.168.0.0/16").unwrap();
    assert_eq!(net, IpNet { addr: IpAddr::V4(0xC0A80000), prefix: 16 });
    assert!(net.contains(ip("192.168.255.1")));
    assert!(!net.contains(ip("192.169.0.1")));
    assert!(!net.contains(ip("::1")));
    assert_eq!(net.to_bytes(), b"192.168.0.0/16".to_vec());
    let host = IpNet::from_bytes(b"243.185.187.39").unwrap();
    assert_eq!(host.prefix, 32);
    assert_eq!(host, IpNet::host(ip("243.185.187.39")));
    assert!(host.contains(ip("243.185.187.39")));
    assert!(!host.contains(ip("243.185.187.38")));
    let all = IpNet::from_bytes(b"::/0").unwrap();
    assert!(all.contains(ip("2001:db8::1")));
    let v6 = IpNet::from_bytes(b"2001:db8::/32").unwrap();
    assert!(v6.contains(ip("2001:db8:ffff::1")));
    assert!(!v6.contains(ip("2001:db9::1")));
    assert_eq!(IpNet::from_bytes(b"10.0.0.0/33"), None);
    assert_eq!(IpNet::from_bytes(b"::/129"), None);
    assert_eq!(IpNet::from_bytes(b"10.0.0.0/8/8"), None);
    assert_eq!(IpNet::from_bytes(b"10.0.0.0/"), None);
}

#[test]
fn blocks_or_sets() {
    let set = IpOrSet::from_bytes(b"ip-set:cn").unwrap();
    assert_eq!(set, IpOrSet::IpSet(b"cn".to_vec()));
    assert_eq!(set.to_bytes(), b"ip-set:cn".to_vec());
    assert!(!set.contains(ip("1.1.1.1")));
    let net = IpOrSet::from_bytes(b"1.1.1.0/24").unwrap();
    assert!(net.contains(ip("1.1.1.1")));
    assert_eq!(net.to_bytes(), b"1.1.1.0/24".to_vec());
    assert_eq!(net.clone(), net);
    assert_eq!(IpOrSet::from_bytes(b"ip-set:"), None);
}
