use smartdns::config::item::{AddressRule, ForwardRule};
use smartdns::config::setting::{
    find_option, format_setting, parse_setting, parse_settings, read_option_name, Dialect,
    OptionKey, Setting,
};
use smartdns::config::value::{
    format_bool, format_nftset, format_nftsets, format_speed_modes, parse_bool, parse_nftset,
    parse_nftsets, parse_speed_modes, AddressRuleValue, Byte, CNameRule, ConfigForIP, FileMode,
    Level, NFTsetConfig, NftFamily, RecordType, ResponseMode, SpeedCheckMode,
};
use smartdns::ip::IpAddr;
use smartdns::name::Name;
use smartdns::text::{
    eq_ignore_case, first_line, format_u64, join_with, parse_number, parse_u64, split_fields,
    split_words,
};

#[test]
fn words_and_fields() {
    assert_eq!(split_words(b"  a \t bc  d "), vec![b"a".to_vec(), b"bc".to_vec(), b"d".to_vec()]);
    assert_eq!(split_words(b" \t "), Vec::<Vec<u8>>::new());
    assert_eq!(split_fields(b"a,,b", b','), vec![b"a".to_vec(), b"".to_vec(), b"b".to_vec()]);
    assert_eq!(split_fields(b"", b','), vec![b"".to_vec()]);
    assert_eq!(join_with(&vec![b"a".to_vec(), b"".to_vec(), b"b".to_vec()], b','), b"a,,b".to_vec());
    assert_eq!(first_line(b"one\r\ntwo"), b"one");
    assert_eq!(first_line(b"one"), b"one");
    assert!(eq_ignore_case(b"Rr-TTL", b"rr-ttl"));
    assert!(!eq_ignore_case(b"rr-ttl", b"rr_ttl"));
}

#[test]
fn numbers() {
    assert_eq!(parse_u64(b"0"), Some(0));
    assert_eq!(parse_u64(b"18446744073709551615"), Some(u64::MAX));
    assert_eq!(parse_u64(b"18446744073709551616"), None);
    assert_eq!(parse_u64(b""), None);
    assert_eq!(parse_u64(b"+1"), None);
    assert_eq!(parse_number(b"ff", 16, 255), Some(255));
    assert_eq!(parse_number(b"FF", 16, 255), Some(255));
    assert_eq!(parse_number(b"100", 16, 255), None);
    assert_eq!(parse_number(b"8", 8, 255), None);
    assert_eq!(format_u64(0), b"0".to_vec());
    assert_eq!(format_u64(u64::MAX), b"18446744073709551615".to_vec());
    assert_eq!(parse_u64(&format_u64(1234567890)), Some(1234567890));
}

#[test]
fn switches() {
    for on in ["yes", "ON", "True", "1"] {
        assert_eq!(parse_bool(on.as_bytes()), Some(true));
    }
    for off in ["no", "Off", "FALSE", "0"] {
        assert_eq!(parse_bool(off.as_bytes()), Some(false));
    }
    assert_eq!(parse_bool(b"maybe"), None);
    assert_eq!(parse_bool(&format_bool(true)), Some(true));
    assert_eq!(parse_bool(&format_bool(false)), Some(false));
}

#[test]
fn sizes_modes_levels_and_types() {
    assert_eq!(Byte::from_bytes(b"128"), Some(Byte(128)));
    assert_eq!(Byte::from_bytes(b"128k"), Some(Byte(131072)));
    assert_eq!(Byte::from_bytes(b"2GB"), Some(Byte(2147483648)));
    assert_eq!(Byte::from_bytes(b"10b"), Some(Byte(10)));
    assert_eq!(Byte::from_bytes(b"k"), None);
    assert_eq!(Byte::from_bytes(b"99999999999999999999g"), None);
    assert_eq!(Byte::from_bytes(b"18014398509481984k"), None);
    assert_eq!(Byte(4096).to_bytes(), b"4096".to_vec());
    assert_eq!(FileMode::from_bytes(b"0644"), Some(FileMode(0o644)));
    assert_eq!(FileMode::from_bytes(b"888"), None);
    assert_eq!(FileMode::from_bytes(b"17777"), None);
    assert_eq!(FileMode(0o640).to_bytes(), b"640".to_vec());
    assert_eq!(Level::from_bytes(b"Fatal"), Some(Level::Error));
    assert_eq!(Level::from_bytes(b"verbose"), None);
    assert_eq!(Level::from_bytes(&Level::Trace.to_bytes()), Some(Level::Trace));
    assert_eq!(RecordType::from_bytes(b"aaaa"), Some(RecordType(28)));
    assert_eq!(RecordType::from_bytes(b"65536"), None);
    assert_eq!(RecordType::from_bytes(&RecordType(28).to_bytes()), Some(RecordType(28)));
}

#[test]
fn modes_of_answering_and_probing() {
    for m in [ResponseMode::FirstPing, ResponseMode::FastestIp, ResponseMode::FastestResponse] {
        assert_eq!(ResponseMode::from_bytes(&m.to_bytes()), Some(m));
    }
    assert_eq!(ResponseMode::from_bytes(b"slowest"), None);
    for m in [
        SpeedCheckMode::Disabled,
        SpeedCheckMode::Ping,
        SpeedCheckMode::Tcp(80),
        SpeedCheckMode::Http(8080),
        SpeedCheckMode::Https(443),
    ] {
        assert_eq!(SpeedCheckMode::from_bytes(&m.to_bytes()), Some(m));
    }
    assert_eq!(SpeedCheckMode::from_bytes(b"tcp"), None);
    assert_eq!(SpeedCheckMode::from_bytes(b"tcp:70000"), None);
    assert_eq!(SpeedCheckMode::from_bytes(b"udp:53"), None);
    let list = vec![SpeedCheckMode::Ping, SpeedCheckMode::Tcp(443), SpeedCheckMode::Disabled];
    assert_eq!(format_speed_modes(&list), b"ping,tcp:443,none".to_vec());
    assert_eq!(parse_speed_modes(b"ping,tcp:443,none"), Some(list));
    assert_eq!(parse_speed_modes(b"ping,,tcp:443"), None);
}

#[test]
fn forced_answers_and_aliases() {
    let cases: [(&str, AddressRuleValue); 8] = [
        ("#", AddressRuleValue::SOA),
        ("#4", AddressRuleValue::SOAv4),
        ("#6", AddressRuleValue::SOAv6),
        ("-", AddressRuleValue::IGN),
        ("-4", AddressRuleValue::IGNv4),
        ("-6", AddressRuleValue::IGNv6),
        ("1.2.3.4", AddressRuleValue::Addr(IpAddr::V4(0x01020304))),
        ("::1", AddressRuleValue::Addr(IpAddr::V6(1))),
    ];
    for (text, value) in cases {
        assert_eq!(AddressRuleValue::from_bytes(text.as_bytes()), Some(value));
        assert_eq!(AddressRuleValue::from_bytes(&value.to_bytes()), Some(value));
    }
    assert_eq!(AddressRuleValue::from_bytes(b"#5"), None);
    assert_eq!(CNameRule::from_bytes(b"-"), Some(CNameRule::Ignore));
    let alias = CNameRule::from_bytes(b"cdn.example.net").unwrap();
    assert_eq!(alias, CNameRule::Value(Name::from_str("cdn.example.net").unwrap()));
    assert_eq!(CNameRule::from_bytes(&alias.to_bytes()), Some(alias.clone()));
    let rule = AddressRule::from_bytes(b"/blocked.test/#").unwrap();
    assert_eq!(rule.address, AddressRuleValue::SOA);
    assert_eq!(rule.to_bytes(), b"/blocked.test/#".to_vec());
    assert_eq!(AddressRule::from_bytes(b"/blocked.test#"), None);
    assert_eq!(AddressRule::from_bytes(b"blocked.test/#"), None);
    let forward = ForwardRule::from_bytes(b"/example.com/office").unwrap();
    assert_eq!(forward.nameserver, b"office".to_vec());
    assert_eq!(forward.to_bytes(), b"/example.com/office".to_vec());
    assert_eq!(ForwardRule::from_bytes(b"/example.com/"), None);
}

#[test]
fn packet_filter_sets() {
    let v4 = ConfigForIP::V4(NFTsetConfig {
        family: NftFamily::Ip,
        table: b"filter".to_vec(),
        name: b"dns_v4".to_vec(),
    });
    assert_eq!(format_nftset(&v4), b"#4:ip#filter#dns_v4".to_vec());
    assert_eq!(parse_nftset(b"#4:ip#filter#dns_v4"), Some(v4.clone()));
    assert_eq!(parse_nftset(b"-"), Some(ConfigForIP::Unset));
    assert_eq!(parse_nftset(b"#5:ip#filter#dns"), None);
    assert_eq!(parse_nftset(b"#4:ipx#filter#dns"), None);
    assert_eq!(parse_nftset(b"#4:ip#filter"), None);
    assert_eq!(parse_nftset(b"#4:ip##dns"), None);
    let list = vec![v4, ConfigForIP::Unset];
    assert_eq!(format_nftsets(&list), b"#4:ip#filter#dns_v4,-".to_vec());
    assert_eq!(parse_nftsets(&format_nftsets(&list)), Some(list));
    assert_eq!(NftFamily::from_bytes(NftFamily::Netdev.name().as_bytes()), Some(NftFamily::Netdev));
}

#[test]
fn options() {
    assert_eq!(read_option_name(b"--Address"), Some(b"address".to_vec()));
    assert_eq!(read_option_name(b"-a"), Some(b"a".to_vec()));
    assert_eq!(read_option_name(b"-"), None);
    assert_eq!(read_option_name(b"--"), None);
    assert_eq!(read_option_name(b"---x"), Some(b"-x".to_vec()));
    assert_eq!(read_option_name(b"address"), None);
    assert_eq!(find_option(Dialect::Rule, b"n"), Some(OptionKey::Nameserver));
    assert_eq!(find_option(Dialect::DomainSet, b"n"), Some(OptionKey::Name));
    assert_eq!(find_option(Dialect::Server, b"n"), None);
    assert_eq!(find_option(Dialect::Server, b"g"), Some(OptionKey::Group));
    assert!(OptionKey::Address.takes_value());
    assert!(!OptionKey::NoCache.takes_value());
    let words: Vec<Vec<u8>> = ["-rr-ttl", "60", "--no-cache", "# x"].iter().map(|w| w.as_bytes().to_vec()).collect();
    assert_eq!(parse_setting(Dialect::Rule, &words, 0), Some((Setting::RrTtl(60), 2)));
    assert_eq!(parse_setting(Dialect::Rule, &words, 1), None);
    assert_eq!(parse_setting(Dialect::Rule, &words, 2), Some((Setting::NoCache, 1)));
    assert_eq!(parse_settings(Dialect::Rule, &words, 0), (vec![Setting::RrTtl(60), Setting::NoCache], 3));
    assert_eq!(format_setting(&Setting::RrTtl(60)), vec![b"--rr-ttl".to_vec(), b"60".to_vec()]);
    assert_eq!(format_setting(&Setting::NoCache), vec![b"--no-cache".to_vec()]);
}
