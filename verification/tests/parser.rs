use smartdns::config::domain::{Domain, WildcardName};
use smartdns::config::item::{
    slashed_value, AddressRule, ConfigForDomain, DomainSetContentType, DomainSetFileProvider,
    DomainSetProvider, ForwardRule, IpSetProvider,
};
use smartdns::config::parser::{
    find_directive, format_rule_line, parse_config, parse_line, parse_value, ConfigError, Directive,
    NomParser, OneConfig, Value, ValueKind,
};
use smartdns::config::rule::DomainRule;
use smartdns::config::value::{
    AddressRuleValue, Byte, ConfigForIP, Level, NFTsetConfig, NftFamily, RecordType, ResponseMode,
    SpeedCheckMode,
};
use smartdns::dns::{Host, Protocol};
use smartdns::ip::{IpAddr, IpNet, IpOrSet};
use smartdns::name::Name;

fn net(text: &str) -> IpNet {
    IpNet::from_bytes(text.as_bytes()).unwrap()
}

#[test]
fn test_nftset() {
    assert_eq!(
        parse_config("nftset /www.example.com/#4:inet#tab#dns4").unwrap(),
        (
            "",
            OneConfig::NftSet(ConfigForDomain {
                domain: Domain::Name(WildcardName::from_str("www.example.com").unwrap()),
                config: vec![ConfigForIP::V4(NFTsetConfig {
                    family: NftFamily::Inet,
                    table: b"tab".to_vec(),
                    name: b"dns4".to_vec()
                })]
            })
        )
    );

    assert_eq!(
        parse_config("nftset /www.example.com/#4:inet#tab#dns4 # comment 123").unwrap(),
        (
            "",
            OneConfig::NftSet(ConfigForDomain {
                domain: Domain::Name(WildcardName::from_str("www.example.com").unwrap()),
                config: vec![ConfigForIP::V4(NFTsetConfig {
                    family: NftFamily::Inet,
                    table: b"tab".to_vec(),
                    name: b"dns4".to_vec()
                })]
            })
        )
    );
    assert_eq!(NftFamily::Inet.name(), "inet");
}

#[test]
fn test_parse_blacklist_ip() {
    assert_eq!(
        parse_config("blacklist-ip  243.185.187.39").unwrap(),
        ("", OneConfig::BlacklistIp(IpOrSet::Net(net("243.185.187.39/32"))))
    );

    assert_eq!(
        parse_config("blacklist-ip ip-set:name").unwrap(),
        ("", OneConfig::BlacklistIp(IpOrSet::IpSet(b"name".to_vec())))
    );
}

#[test]
fn test_parse_whitelist_ip() {
    assert_eq!(
        parse_config("whitelist-ip  243.185.187.39").unwrap(),
        ("", OneConfig::WhitelistIp(IpOrSet::Net(net("243.185.187.39/32"))))
    );

    assert_eq!(
        parse_config("whitelist-ip ip-set:name").unwrap(),
        ("", OneConfig::WhitelistIp(IpOrSet::IpSet(b"name".to_vec())))
    );
}

#[test]
fn test_parse_log_size() {
    assert_eq!(
        parse_config("log-size 1M").unwrap(),
        ("", OneConfig::LogSize(Byte::from_str("1M").unwrap()))
    );
    assert_eq!(Byte::from_str("1M"), Some(Byte(1048576)));
}

#[test]
fn test_parse_speed_check_mode() {
    assert_eq!(
        parse_config("speed-check-mode none").unwrap(),
        ("", OneConfig::SpeedMode(Default::default()))
    );
}

#[test]
fn test_parse_response_mode() {
    assert_eq!(
        parse_config("response-mode fastest-response").unwrap(),
        ("", OneConfig::ResponseMode(ResponseMode::FastestResponse))
    );
}

#[test]
fn test_parse_resolv_hostname() {
    assert_eq!(
        parse_config("resolv-hostname no").unwrap(),
        ("", OneConfig::ResolvHostname(false))
    );
}

#[test]
fn test_parse_domain_set() {
    assert_eq!(
        parse_config("domain-set -name outbound -file /etc/smartdns/geoip.txt").unwrap(),
        (
            "",
            OneConfig::DomainSetProvider(DomainSetProvider::File(DomainSetFileProvider {
                name: b"outbound".to_vec(),
                file: b"/etc/smartdns/geoip.txt".to_vec(),
                content_type: Default::default(),
            }))
        )
    );

    assert_eq!(
        parse_config("domain-set -n proxy-server -f proxy-server-list.txt").unwrap(),
        (
            "",
            OneConfig::DomainSetProvider(DomainSetProvider::File(DomainSetFileProvider {
                name: b"proxy-server".to_vec(),
                file: b"proxy-server-list.txt".to_vec(),
                content_type: Default::default(),
            }))
        )
    );
    assert_eq!(DomainSetContentType::default(), DomainSetContentType::List);
}

#[test]
fn test_parse_domain_rule() {
    assert_eq!(
        parse_config("domain-rules /domain-set:domain-block-list/ --address #").unwrap(),
        (
            "",
            OneConfig::DomainRule(ConfigForDomain {
                domain: Domain::DomainSet(b"domain-block-list".to_vec()),
                config: DomainRule {
                    address: Some(AddressRuleValue::SOA),
                    ..Default::default()
                }
            })
        )
    );
}

#[test]
fn test_parse_ip_set() {
    assert_eq!(
        parse_config("ip-set -name name -file /path/to/file.txt").unwrap(),
        (
            "",
            OneConfig::IpSetProvider(IpSetProvider {
                name: b"name".to_vec(),
                file: b"/path/to/file.txt".to_vec(),
            })
        )
    );
}

#[test]
fn lines_that_are_no_configuration() {
    assert_eq!(parse_line(b""), Err(ConfigError::NoDirective));
    assert_eq!(parse_line(b"   # only a comment"), Err(ConfigError::NoDirective));
    assert_eq!(parse_line(b"no-such-thing 1"), Err(ConfigError::UnknownDirective));
    assert_eq!(parse_line(b"rr-ttl"), Err(ConfigError::MalformedValue));
    assert_eq!(parse_line(b"rr-ttl 12abc"), Err(ConfigError::MalformedValue));
    assert_eq!(parse_line(b"rr-ttl 12 34"), Err(ConfigError::TrailingWords));
    assert_eq!(parse_line(b"cache-size 99999999999999999999999"), Err(ConfigError::MalformedValue));
    assert_eq!(parse_line(b"max-reply-ip-num 256"), Err(ConfigError::MalformedValue));
    assert_eq!(
        parse_line(b"domain-rules /example.com/ --nameserver"),
        Err(ConfigError::TrailingWords)
    );
    assert_eq!(parse_line(b"address /exa mple.com/#"), Err(ConfigError::MalformedValue));
}

#[test]
fn directives_in_any_case_with_a_comment() {
    assert_eq!(parse_line(b"  RR-TTL\t600   # ten minutes"), Ok(OneConfig::RrTtl(600)));
    assert_eq!(parse_line(b"force-AAAA-SOA yes"), Ok(OneConfig::ForceAAAASOA(true)));
    assert_eq!(parse_line(b"resolv-hostanme on"), Ok(OneConfig::ResolvHostname(true)));
    assert_eq!(parse_line(b"response first-ping"), Ok(OneConfig::ResponseMode(ResponseMode::FirstPing)));
    assert_eq!(parse_line(b"group-end"), Ok(OneConfig::GroupEnd));
    assert_eq!(parse_line(b"group-begin office"), Ok(OneConfig::GroupBegin(b"office".to_vec())));
    assert_eq!(parse_line(b"cache-size 1024"), Ok(OneConfig::CacheSize(1024)));
    assert_eq!(
        parse_line(b"dualstack-ip-selection-threshold 15"),
        Ok(OneConfig::DualstackIpSelectionThreshold(15))
    );
    assert_eq!(parse_line(b"log-level NOTICE"), Ok(OneConfig::LogLevel(Level::Info)));
    assert_eq!(parse_line(b"force-qtype-soa HTTPS"), Ok(OneConfig::ForceQtypeSoa(RecordType(65))));
    assert_eq!(parse_line(b"force-qtype-soa 65"), Ok(OneConfig::ForceQtypeSoa(RecordType(65))));
    assert_eq!(
        parse_line(b"speed-check-mode ping,tcp:80"),
        Ok(OneConfig::SpeedMode(Some(vec![SpeedCheckMode::Ping, SpeedCheckMode::Tcp(80)])))
    );
    assert_eq!(
        parse_line(b"edns-client-subnet 192.168.1.0/24"),
        Ok(OneConfig::EdnsClientSubnet(IpNet { addr: IpAddr::V4(0xC0A80100), prefix: 24 }))
    );
    assert_eq!(
        parse_line(b"server-name Router.Lan"),
        Ok(OneConfig::ServerName(Name::from_str("router.lan").unwrap()))
    );
}

#[test]
fn the_rest_starts_at_the_line_end() {
    let (rest, line) = parse_config("rr-ttl 300\nrr-ttl-min 60\n").unwrap();
    assert_eq!(line, OneConfig::RrTtl(300));
    assert_eq!(rest, "\nrr-ttl-min 60\n");
    let (rest, line) = parse_config(&rest[1..]).unwrap();
    assert_eq!(line, OneConfig::RrTtlMin(60));
    assert_eq!(rest, "\n");
}

#[test]
fn domain_rule_with_every_kind_of_option() {
    let line = b"domain-rule /+.example.com/ -a #6 -n office -c ping,tcp:443 -r fastest-ip -d no \
        --no-cache --rr-ttl 600 --rr-ttl-min 60 --rr-ttl-max 3600 --rr-ttl-reply-max 30 \
        --cname cdn.example.net --nftset #4:inet#tab#v4,#6:inet#tab#v6 --subnet 10.0.0.0/8 \
        --no-serve-expired --force-aaaa-soa --force-https-soa";
    let parsed = parse_line(line).unwrap();
    let OneConfig::DomainRule(rule) = parsed else {
        panic!("not a domain rule");
    };
    assert_eq!(rule.domain, Domain::Name(WildcardName::from_str("+.example.com").unwrap()));
    let r = &rule.config;
    assert_eq!(r.address, Some(AddressRuleValue::SOAv6));
    assert_eq!(r.nameserver, Some(b"office".to_vec()));
    assert_eq!(r.speed_check_mode, Some(vec![SpeedCheckMode::Ping, SpeedCheckMode::Tcp(443)]));
    assert_eq!(r.response_mode, Some(ResponseMode::FastestIp));
    assert_eq!(r.dualstack_ip_selection, Some(false));
    assert!(r.no_cache && r.no_serve_expired && r.force_aaaa_soa && r.force_https_soa);
    assert_eq!((r.rr_ttl, r.rr_ttl_min, r.rr_ttl_max, r.rr_ttl_reply_max), (Some(600), Some(60), Some(3600), Some(30)));
    assert_eq!(r.subnet, Some(net("10.0.0.0/8")));
    assert_eq!(r.nftset.as_ref().unwrap().len(), 2);
    // what the rule writes reads back as the rule
    let settings = r.to_settings();
    assert_eq!(DomainRule::from_settings(&settings).as_ref(), Some(r));
}

#[test]
fn servers_and_listeners() {
    let OneConfig::Server(s) = parse_line(b"server https://dns.example/dns-query -group office -g lab -exclude-default-group").unwrap() else {
        panic!("not a server");
    };
    assert_eq!(s.url.proto, Protocol::Https);
    assert_eq!(s.url.host, Host::Domain(Name::from_str("dns.example").unwrap()));
    assert_eq!(s.url.port(), 443);
    assert_eq!(s.url.path, Some(b"/dns-query".to_vec()));
    assert_eq!(s.group, vec![b"office".to_vec(), b"lab".to_vec()]);
    assert!(s.exclude_default_group);
    assert!(s.in_group(b"lab", b"default"));
    assert!(!s.in_group(b"default", b"default"));

    let OneConfig::Server(s) = parse_line(b"server-tls [2001:db8::1]:8853").unwrap() else {
        panic!("not a server");
    };
    assert_eq!(s.url.proto, Protocol::Tls);
    assert_eq!(s.url.host, Host::Ip(IpAddr::V6(0x2001_0db8_0000_0000_0000_0000_0000_0001)));
    assert_eq!(s.url.port, Some(8853));
    assert!(s.in_group(b"default", b"default"));

    let OneConfig::Listener(l) = parse_line(b"bind-tcp :5353 -group guests -no-rule -no-cache").unwrap() else {
        panic!("not a listener");
    };
    assert_eq!((l.proto, l.addr, l.port), (Protocol::Tcp, None, 5353));
    assert_eq!(l.group, Some(b"guests".to_vec()));
    assert!(l.no_rule && l.no_cache);
    let OneConfig::Listener(l) = parse_line(b"bind 127.0.0.1").unwrap() else {
        panic!("not a listener");
    };
    assert_eq!((l.addr, l.port), (Some(IpAddr::V4(0x7f000001)), 53));
    assert_eq!(parse_line(b"bind 127.0.0.1:99999"), Err(ConfigError::MalformedValue));
}

#[test]
fn hosts_file_takes_a_file_pattern() {
    let OneConfig::HostsFile(p) = parse_line(b"hosts-file /etc/hosts.d/*.conf").unwrap() else {
        panic!("not a hosts file");
    };
    assert_eq!(p.as_bytes(), b"/etc/hosts.d/*.conf");
    assert_eq!(parse_line(b"hosts-file /etc/[hosts"), Err(ConfigError::MalformedValue));
    assert_eq!(parse_line(b"hosts-file a***b"), Err(ConfigError::MalformedValue));
}

#[test]
fn numbers_as_values() {
    let words = vec![b"12".to_vec(), b"300".to_vec(), b"yes".to_vec()];
    assert_eq!(<u64 as NomParser>::parse(&words, 0), Some((12, 1)));
    assert_eq!(<usize as NomParser>::parse(&words, 1), Some((300, 1)));
    assert_eq!(<u8 as NomParser>::parse(&words, 1), None);
    assert_eq!(<bool as NomParser>::parse(&words, 2), Some((true, 1)));
    assert_eq!(<u64 as NomParser>::parse(&words, 3), None);
}

#[test]
fn the_line_of_a_rule_reads_back() {
    for line in [
        "domain-rules /example.com/",
        "domain-rules /domain-set:ads/ --address #",
        "domain-rules /*.example.com/ --address 10.0.0.1 --nameserver office --speed-check-mode ping,tcp:443 \
         --response-mode first-ping --dualstack-ip-selection yes --no-cache --no-serve-expired \
         --force-aaaa-soa --force-https-soa --rr-ttl 1 --rr-ttl-min 2 --rr-ttl-max 3 --rr-ttl-reply-max 4 \
         --cname - --nftset #4:inet#t#s --subnet 2001:db8:0:0:0:0:0:0/32",
    ] {
        let canonical: Vec<&str> = line.split_whitespace().collect();
        let canonical = canonical.join(" ");
        let OneConfig::DomainRule(rule) = parse_line(canonical.as_bytes()).unwrap() else {
            panic!("not a domain rule");
        };
        let written = format_rule_line(&rule.domain, &rule.config);
        assert_eq!(String::from_utf8(written.clone()).unwrap(), canonical);
        assert_eq!(parse_line(&written), Ok(OneConfig::DomainRule(rule)));
    }
}

#[test]
fn directives_and_their_values() {
    assert_eq!(find_directive(b"rr-ttl"), Some(Directive::RrTtl));
    assert_eq!(find_directive(b"client-rules"), Some(Directive::ClientRule));
    assert_eq!(find_directive(b"bind-tls"), Some(Directive::Listener(Protocol::Tls)));
    assert_eq!(find_directive(b"RR-TTL"), None);
    assert_eq!(Directive::CacheSize.kind(), ValueKind::Number(usize::MAX as u64));
    assert_eq!(Directive::GroupEnd.kind(), ValueKind::Unit);
    assert_eq!(OneConfig::RrTtl(5).directive(), Directive::RrTtl);
    assert_eq!(OneConfig::from_parts(Directive::RrTtl, Value::Number(5)), Some(OneConfig::RrTtl(5)));
    assert_eq!(OneConfig::from_parts(Directive::RrTtl, Value::Bool(true)), None);
    assert_eq!(OneConfig::from_parts(Directive::MaxReplyIpNum, Value::Number(256)), None);
    assert_eq!(OneConfig::from_parts(Directive::GroupEnd, Value::Unit), Some(OneConfig::GroupEnd));
    let words = vec![b"x".to_vec(), b"yes".to_vec()];
    assert_eq!(parse_value(ValueKind::Bool, &words, 1), Some((Value::Bool(true), 1)));
    assert_eq!(parse_value(ValueKind::Bool, &words, 0), None);
    assert_eq!(parse_value(ValueKind::Bool, &words, 2), None);
    assert_eq!(parse_value(ValueKind::Unit, &words, 2), Some((Value::Unit, 0)));
}

fn blocked() -> Domain {
    Domain::Name(WildcardName::Default(Name::from_str("blocked.test").unwrap()))
}

fn forced(address: AddressRuleValue) -> OneConfig {
    OneConfig::Address(AddressRule { domain: blocked(), address })
}

fn pinned(group: &str) -> OneConfig {
    OneConfig::ForwardRule(ForwardRule { domain: blocked(), nameserver: group.as_bytes().to_vec() })
}

#[test]
fn a_value_behind_a_domain_may_stand_in_the_next_word() {
    assert_eq!(parse_config("address /blocked.test/ #"), Ok(("", forced(AddressRuleValue::SOA))));
    assert_eq!(parse_config("address /blocked.test/#"), Ok(("", forced(AddressRuleValue::SOA))));
    assert_eq!(parse_config("address /blocked.test/ # # said twice"), Ok(("", forced(AddressRuleValue::SOA))));
    assert_eq!(parse_config("address /blocked.test/# # a comment"), Ok(("", forced(AddressRuleValue::SOA))));
    assert_eq!(parse_config("address /blocked.test/ #6\nrest"), Ok(("\nrest", forced(AddressRuleValue::SOAv6))));
    assert_eq!(
        parse_config("address /blocked.test/ 10.0.0.1"),
        Ok(("", forced(AddressRuleValue::Addr(IpAddr::from_bytes(b"10.0.0.1").unwrap()))))
    );
    assert_eq!(parse_config("address /blocked.test/"), Err(ConfigError::MalformedValue));
    assert_eq!(parse_config("address /blocked.test/ x"), Err(ConfigError::MalformedValue));
    assert_eq!(parse_config("address /blocked.test/# x"), Err(ConfigError::TrailingWords));
    assert_eq!(parse_config("address /blocked.test/ # x"), Err(ConfigError::TrailingWords));
    assert_eq!(parse_config("nameserver /blocked.test/ office"), Ok(("", pinned("office"))));
    assert_eq!(parse_config("nameserver /blocked.test/office # inside"), Ok(("", pinned("office"))));
    assert_eq!(parse_config("nameserver /blocked.test/"), Err(ConfigError::MalformedValue));
    let words = vec![b"/a.test/".to_vec(), b"-".to_vec(), b"more".to_vec()];
    assert_eq!(slashed_value(&words, 0), Some((b"/a.test/-".to_vec(), 2)));
    assert_eq!(slashed_value(&words, 1), Some((b"-".to_vec(), 1)));
    assert_eq!(slashed_value(&words, 3), None);
}

#[test]
fn a_word_of_text_as_a_value() {
    let words = vec![b"user".to_vec(), "caf\u{e9}".as_bytes().to_vec(), vec![0xff, 0x41]];
    assert_eq!(String::parse(&words, 0), Some(("user".to_string(), 1)));
    assert_eq!(String::parse(&words, 1), Some(("caf\u{e9}".to_string(), 1)));
    // bytes that are no text
    assert_eq!(String::parse(&words, 2), None);
    assert_eq!(String::parse(&words, 3), None);
    assert_eq!(parse_config("hosts-file \u{e9}tc/hosts.*").map(|(_, c)| c.directive()), Ok(Directive::HostsFile));
}
