use smartdns::config::domain::WildcardName;
use smartdns::config::parser::{parse_line, OneConfig};
use smartdns::config::rule::DomainRule;
use smartdns::config::server::NameServerInfo;
use smartdns::config::value::AddressRuleValue;
use smartdns::dns::{
    DefaultSOA, DnsContext, DnsUrl, Host, NameServerConfig, Protocol, RData, SmartDnsConfig, SOA,
};
use smartdns::dns_conf::{clone_server, ProxyConfig, RuntimeConfig, MDNS_IPV4, MDNS_IPV6};
use smartdns::ip::{IpAddr, IpNet, IpOrSet, SocketAddr};
use smartdns::message::{cap_records, Message, Rcode, Record, TYPE_A, TYPE_AAAA};
use smartdns::name::Name;
use smartdns::resolve::{
    answer_for, backoff_ms, best_rtt, exit_code, find_rtt, holds_listed, order_by_speed,
    in_gather_window, is_listed, match_client, may_follow, pick_loser, probe_is_current,
    rcode_of, reachable_only, select_fastest_response, select_first_ping, select_group,
    select_subnet, static_answer, strip_listed, without_listed, AddressAnswer, Family, Outcome,
    Probe, ResolveError,
};
use smartdns::rule_table::RuleTable;
use smartdns::run_user::{
    switch_user, try_drop_privs, with, Action, Capability, Event, Stage, SwitchError,
};

fn name(text: &str) -> Name {
    Name::from_str(text).unwrap()
}

fn ip(text: &str) -> IpAddr {
    IpAddr::from_bytes(text.as_bytes()).unwrap()
}

fn a(owner: &str, addr: &str, ttl: u32) -> Record {
    let IpAddr::V4(v) = ip(addr) else { panic!("not an IPv4 address") };
    Record { name: name(owner), ttl, data: RData::A(v) }
}

fn is_made_up_soa(m: &Message, owner: &str) -> bool {
    m.rcode == Rcode::NoError
        && m.answer.is_empty()
        && m.authority.len() == 1
        && m.authority[0].name == name(owner)
        && m.authority[0].data == RData::default_soa()
}

fn rule_of(line: &str) -> (WildcardName, DomainRule) {
    match parse_line(line.as_bytes()).unwrap() {
        OneConfig::DomainRule(r) => match r.domain {
            smartdns::config::domain::Domain::Name(p) => (p, r.config),
            _ => panic!("a set"),
        },
        OneConfig::Address(r) => match r.domain {
            smartdns::config::domain::Domain::Name(p) => {
                (p, DomainRule { address: Some(r.address), ..Default::default() })
            }
            _ => panic!("a set"),
        },
        _ => panic!("no rule"),
    }
}

#[test]
fn the_default_soa() {
    let soa = SOA::default_soa();
    assert_eq!(soa.mname, name("a.gtld-servers.net"));
    assert_eq!(soa.rname, name("nstld.verisign-grs.com"));
    assert_eq!((soa.serial, soa.refresh, soa.retry, soa.expire, soa.minimum), (1800, 1800, 900, 604800, 86400));
    assert_eq!(RData::default_soa(), RData::SOA(soa));
}

#[test]
fn settings_fall_back_to_their_defaults() {
    let unset = SmartDnsConfig::default();
    assert_eq!(unset.rr_ttl(), 300);
    assert_eq!(unset.cache_size(), 512);
    let set = SmartDnsConfig { rr_ttl: Some(60), cache_size: Some(0) };
    assert_eq!(set.rr_ttl(), 60);
    assert_eq!(set.cache_size(), 0);
    let context = DnsContext::default();
    assert_eq!(context.cfg.rr_ttl(), 300);
}

#[test]
fn soa_for_aaaa_under_a_domain() {
    // domain-rule /+.example.com/ --address #6 and a query for AAAA a.example.com
    let (pattern, rule) = rule_of("domain-rule /+.example.com/ --address #6");
    let mut table = RuleTable::new();
    table.insert(pattern, rule);
    let found = table.lookup(&name("a.example.com")).unwrap();
    let reply = static_answer(&name("a.example.com"), TYPE_AAAA, found.address.unwrap(), 30).unwrap();
    assert!(is_made_up_soa(&reply, "a.example.com"));
    assert_eq!(reply.answer.len(), 0);
    assert_eq!(reply.authority[0].ttl, 30);
    // the same rule lets a query for an IPv4 address pass
    assert!(static_answer(&name("a.example.com"), TYPE_A, found.address.unwrap(), 30).is_none());
    // and it does not cover the domain itself
    assert!(table.lookup(&name("example.com")).is_none());
}

#[test]
fn soa_for_every_type_of_a_blocked_domain() {
    let (pattern, rule) = rule_of("address /blocked.test/ #");
    let mut table = RuleTable::new();
    table.insert(pattern, rule);
    let found = table.lookup(&name("blocked.test")).unwrap();
    for qtype in [TYPE_A, TYPE_AAAA, 5, 15, 16, 65, 255] {
        let reply = static_answer(&name("blocked.test"), qtype, found.address.unwrap(), 60).unwrap();
        assert!(is_made_up_soa(&reply, "blocked.test"));
    }
}

#[test]
fn forced_answers_by_type() {
    assert_eq!(answer_for(AddressRuleValue::SOAv4, TYPE_A), AddressAnswer::Soa);
    assert_eq!(answer_for(AddressRuleValue::SOAv4, TYPE_AAAA), AddressAnswer::Pass);
    assert_eq!(answer_for(AddressRuleValue::IGN, TYPE_A), AddressAnswer::Pass);
    assert_eq!(answer_for(AddressRuleValue::IGNv4, TYPE_A), AddressAnswer::Pass);
    assert_eq!(answer_for(AddressRuleValue::IGNv6, TYPE_AAAA), AddressAnswer::Pass);
    assert_eq!(answer_for(AddressRuleValue::Addr(ip("10.0.0.1")), TYPE_A), AddressAnswer::Address(ip("10.0.0.1")));
    assert_eq!(answer_for(AddressRuleValue::Addr(ip("10.0.0.1")), TYPE_AAAA), AddressAnswer::Pass);
    assert_eq!(answer_for(AddressRuleValue::Addr(ip("::1")), TYPE_AAAA), AddressAnswer::Address(ip("::1")));
    let reply = static_answer(&name("host.lan"), TYPE_A, AddressRuleValue::Addr(ip("10.0.0.1")), 600).unwrap();
    assert_eq!(reply.answer, vec![a("host.lan", "10.0.0.1", 600)]);
    assert!(reply.authority.is_empty());
}

#[test]
fn a_bogus_address_is_stripped_and_soa_put_in_its_place() {
    // bogus-nxdomain 243.185.187.39/32 and an upstream answer A=243.185.187.39
    let OneConfig::BogusNxDomain(bogus) = parse_line(b"bogus-nxdomain 243.185.187.39/32").unwrap() else {
        panic!("not a bogus address");
    };
    let sets = vec![bogus];
    let reply = Message {
        rcode: Rcode::NoError,
        answer: vec![a("example.com", "243.185.187.39", 300)],
        authority: vec![],
        additional: vec![],
    };
    let filtered = without_listed(&name("example.com"), &reply, &sets, 30);
    assert!(is_made_up_soa(&filtered, "example.com"));

    let mixed = Message {
        rcode: Rcode::NoError,
        answer: vec![
            a("example.com", "243.185.187.39", 300),
            a("example.com", "93.184.216.34", 300),
            Record { name: name("example.com"), ttl: 300, data: RData::CNAME(name("cdn.example.net")) },
        ],
        authority: vec![],
        additional: vec![a("ns.example.com", "243.185.187.39", 300)],
    };
    let filtered = without_listed(&name("example.com"), &mixed, &sets, 30);
    assert_eq!(filtered.answer, vec![mixed.answer[1].clone(), mixed.answer[2].clone()]);
    assert_eq!(filtered.additional, mixed.additional);
    assert_eq!(strip_listed(&mixed.answer, &sets).len(), 2);
    assert!(holds_listed(&mixed.answer, &sets));
    assert!(!holds_listed(&filtered.answer, &sets));
    assert!(is_listed(ip("243.185.187.39"), &sets));
    assert!(!is_listed(ip("243.185.187.40"), &sets));
    assert!(!is_listed(ip("1.1.1.1"), &vec![IpOrSet::IpSet(b"cn".to_vec())]));
    let empty = Message { rcode: Rcode::NxDomain, answer: vec![], authority: vec![], additional: vec![] };
    assert_eq!(without_listed(&name("example.com"), &empty, &sets, 30), empty);
}

#[test]
fn the_answer_with_the_fastest_address_is_picked() {
    // A answers first with 1.1.1.1, B second with 2.2.2.2; 1.1.1.1 takes 50 ms, 2.2.2.2 takes 5 ms
    let answers = vec![vec![ip("1.1.1.1")], vec![ip("2.2.2.2")]];
    let probes = vec![
        Probe { ip: ip("1.1.1.1"), rtt: Some(50) },
        Probe { ip: ip("2.2.2.2"), rtt: Some(5) },
    ];
    assert_eq!(select_first_ping(&answers, &probes), Some(1));
    assert_eq!(find_rtt(&probes, ip("2.2.2.2")), Some(5));
    assert_eq!(find_rtt(&probes, ip("3.3.3.3")), None);
    assert_eq!(best_rtt(&vec![ip("1.1.1.1"), ip("2.2.2.2")], &probes), Some(5));
    assert_eq!(best_rtt(&vec![ip("3.3.3.3")], &probes), None);
}

#[test]
fn an_answer_with_a_reachable_address_is_picked_if_there_is_one() {
    let probes = vec![
        Probe { ip: ip("1.1.1.1"), rtt: None },
        Probe { ip: ip("2.2.2.2"), rtt: None },
        Probe { ip: ip("3.3.3.3"), rtt: Some(900) },
        Probe { ip: ip("4.4.4.4"), rtt: Some(900) },
    ];
    let answers = vec![vec![ip("1.1.1.1")], vec![ip("2.2.2.2"), ip("3.3.3.3")], vec![ip("4.4.4.4")]];
    assert_eq!(select_first_ping(&answers, &probes), Some(1));
    let unreachable = vec![vec![ip("1.1.1.1")], vec![ip("2.2.2.2")]];
    assert_eq!(select_first_ping(&unreachable, &probes), Some(0));
    assert_eq!(select_first_ping(&vec![], &probes), None);
    assert_eq!(reachable_only(&answers[1], &probes), vec![ip("3.3.3.3")]);
    assert_eq!(reachable_only(&unreachable[0], &probes), vec![ip("1.1.1.1")]);
    // from fastest to slowest, those of equal speed in their order
    let records: Vec<Record> =
        ["1.1.1.1", "4.4.4.4", "9.9.9.9", "3.3.3.3"].iter().map(|addr| a("x.test", addr, 60)).collect();
    let ordered: Vec<Record> =
        ["4.4.4.4", "3.3.3.3", "1.1.1.1", "9.9.9.9"].iter().map(|addr| a("x.test", addr, 60)).collect();
    assert_eq!(order_by_speed(records, &probes), ordered);
}

#[test]
fn the_first_answer_that_is_no_error_is_picked() {
    assert_eq!(select_fastest_response(&vec![Rcode::ServFail, Rcode::NoError, Rcode::NoError]), Some(1));
    assert_eq!(select_fastest_response(&vec![Rcode::ServFail, Rcode::Refused, Rcode::NxDomain]), None);
    assert_eq!(select_fastest_response(&vec![]), None);
}

#[test]
fn the_slower_family_loses() {
    assert_eq!(pick_loser(Some(30), Some(10), 10, false), Some(Family::V4));
    assert_eq!(pick_loser(Some(20), Some(10), 10, false), None);
    assert_eq!(pick_loser(Some(20), Some(10), 10, true), Some(Family::V6));
    assert_eq!(pick_loser(Some(10), Some(90), 10, true), Some(Family::V6));
    assert_eq!(pick_loser(None, Some(10), 10, true), None);
    assert_eq!(pick_loser(Some(10), None, 10, true), None);
}

#[test]
fn groups_aliases_and_retries() {
    let office = b"office".to_vec();
    let guests = b"guests".to_vec();
    assert_eq!(select_group(Some(&office), Some(&guests)), office);
    assert_eq!(select_group(None, Some(&guests)), guests);
    assert_eq!(select_group(None, None), b"default".to_vec());
    let mut visited = vec![name("a.example"), name("b.example")];
    assert!(may_follow(&visited, &name("c.example")));
    assert!(!may_follow(&visited, &name("A.example")));
    while visited.len() < 16 {
        visited.push(name(&format!("n{}.example", visited.len())));
    }
    assert!(!may_follow(&visited, &name("c.example")));
    assert_eq!((backoff_ms(0), backoff_ms(1), backoff_ms(2), backoff_ms(3), backoff_ms(9)), (0, 100, 200, 400, 400));
}

#[test]
fn no_record_of_a_reply_outlives_the_limit_for_replies() {
    let reply = Message {
        rcode: Rcode::NoError,
        answer: vec![a("example.com", "1.2.3.4", 300), a("example.com", "1.2.3.5", 20)],
        authority: vec![Record { name: name("example.com"), ttl: 86400, data: RData::default_soa() }],
        additional: vec![a("ns.example.com", "1.2.3.6", 31)],
    };
    let sent = reply.for_reply(Some(30));
    let ttls: Vec<u32> = sent.answer.iter().chain(&sent.authority).chain(&sent.additional).map(|r| r.ttl).collect();
    assert_eq!(ttls, vec![30, 20, 30, 30]);
    assert_eq!(sent.answer[0].data, reply.answer[0].data);
    assert_eq!(reply.for_reply(None), reply);
    assert_eq!(cap_records(&reply.answer, Some(0))[0].ttl, 0);
}

#[test]
fn one_server_entry_for_each_address() {
    let url = DnsUrl::from_str("tls://dns.example").unwrap();
    let group = url.to_nameserver_config_group(&vec![ip("9.9.9.9"), ip("2620:fe::fe")]).unwrap();
    assert_eq!(group.len(), 2);
    assert_eq!(
        group[0],
        NameServerConfig {
            socket_addr: SocketAddr { ip: ip("9.9.9.9"), port: 853 },
            protocol: Protocol::Tls,
            tls_dns_name: Some(name("dns.example")),
            trust_nx_responses: true,
            bind_addr: None,
        }
    );
    assert_eq!(group[1].socket_addr, SocketAddr { ip: ip("2620:fe::fe"), port: 853 });

    let plain = DnsUrl::from_str("8.8.8.8:5353").unwrap();
    assert_eq!(plain.host, Host::Ip(ip("8.8.8.8")));
    let group = plain.to_nameserver_config_group(&vec![ip("1.1.1.1")]).unwrap();
    assert_eq!(group.len(), 1);
    assert_eq!(group[0].socket_addr, SocketAddr { ip: ip("8.8.8.8"), port: 5353 });
    assert_eq!(group[0].protocol, Protocol::Udp);
    assert_eq!(group[0].tls_dns_name, None);

    let by_name = DnsUrl::from_str("tcp://resolver.lan").unwrap();
    let group = by_name.to_nameserver_config_group(&vec![]).unwrap();
    assert!(group.is_empty());

    // an encrypting transport needs a name to check the certificate against
    assert!(DnsUrl::from_str("https://1.1.1.1/dns-query").unwrap().to_nameserver_config_group(&vec![]).is_none());
    assert!(DnsUrl::from_str("quic://dns.example").unwrap().to_nameserver_config_group(&vec![]).is_none());
    assert_eq!(DnsUrl::from_str("ftp://dns.example"), None);
    assert_eq!(DnsUrl::from_str("udp://"), None);
    assert!(Protocol::Https.is_encrypted() && !Protocol::Tcp.is_encrypted());
    assert_eq!(Protocol::Mdns.default_port(), 5353);
}

#[test]
fn the_client_is_made_from_the_servers() {
    let server = NameServerInfo::from_url(DnsUrl::from_str("udp://8.8.8.8").unwrap());
    let mut config = RuntimeConfig {
        servers: vec![clone_server(&server)],
        ca_path: Some(b"/etc/ssl/certs".to_vec()),
        ca_file: None,
        mdns_lookup: false,
        edns_client_subnet: Some(IpNet::from_bytes(b"192.0.2.0/24").unwrap()),
        user: None,
        proxies: vec![ProxyConfig { name: b"office".to_vec(), url: b"socks5://10.0.0.1:1080".to_vec() }],
    };
    let plan = config.create_dns_client();
    assert_eq!(plan.servers, vec![clone_server(&server)]);
    assert_eq!(plan.ca_path, Some(b"/etc/ssl/certs".to_vec()));
    assert_eq!(plan.ca_file, None);
    assert_eq!(plan.client_subnet, config.edns_client_subnet);
    assert_eq!(plan.proxies, config.proxies);
    config.mdns_lookup = true;
    config.ca_file = Some(b"/etc/ssl/ca.pem".to_vec());
    let plan = config.create_dns_client();
    assert_eq!(plan.servers.len(), 3);
    assert_eq!(plan.servers[0].url.host, Host::Ip(IpAddr::V4(MDNS_IPV4)));
    assert_eq!(plan.servers[1].url.host, Host::Ip(IpAddr::V6(MDNS_IPV6)));
    assert_eq!(plan.servers[0].url.proto, Protocol::Mdns);
    assert_eq!(plan.servers[0].group, vec![b"mdns".to_vec()]);
    assert!(plan.servers[0].exclude_default_group);
    assert_eq!(plan.servers[2], server);
    assert_eq!(plan.ca_path, Some(b"/etc/ssl/certs".to_vec()));
    assert_eq!(plan.ca_file, Some(b"/etc/ssl/ca.pem".to_vec()));
    assert_eq!(plan.proxies.len(), 1);
    assert_eq!(ip("224.0.0.251"), IpAddr::V4(MDNS_IPV4));
    assert_eq!(ip("ff02::fb"), IpAddr::V6(MDNS_IPV6));
}

#[test]
fn giving_up_the_rights_of_the_superuser() {
    let request = try_drop_privs();
    assert_eq!(request.username, "nobody");
    assert_eq!(request.groupname.as_deref(), Some("nobody"));
    assert_eq!(
        request.caps,
        vec![Capability::NetAdmin, Capability::NetBindService, Capability::NetBroadcast, Capability::NetRaw]
    );
    let mut stage = Stage::Start;
    let mut asked = Vec::new();
    for event in [
        Event::Begin,
        Event::Ids { uid: 0, euid: 0 },
        Event::User(Some((65534, 65533))),
        Event::Group(Some(99)),
        Event::Succeeded,
        Event::Succeeded,
        Event::Succeeded,
        Event::Succeeded,
    ] {
        let (next, action) = switch_user(&request, stage, event);
        stage = next;
        asked.push(action);
    }
    assert_eq!(
        asked,
        vec![
            Action::ReadIds,
            Action::LookupUser,
            Action::LookupGroup,
            Action::KeepCaps,
            Action::SetGid(99),
            Action::SetUid(65534),
            Action::SetCaps,
            Action::Done(Ok(())),
        ]
    );
    assert_eq!(stage, Stage::Over);

    // a process that is not the superuser has nothing to give up
    assert_eq!(switch_user(&request, Stage::Ids, Event::Ids { uid: 1000, euid: 1000 }), (Stage::Over, Action::Done(Ok(()))));
    assert_eq!(switch_user(&request, Stage::Ids, Event::Ids { uid: 1000, euid: 0 }).1, Action::LookupUser);
    assert_eq!(switch_user(&request, Stage::User, Event::User(None)).1, Action::Done(Err(SwitchError::UserNotFound)));
    // a group that is not known is replaced by the first group of the user
    assert_eq!(
        switch_user(&request, Stage::Group { uid: 7, primary: 8 }, Event::Group(None)),
        (Stage::Caps { uid: 7, gid: 8 }, Action::KeepCaps)
    );
    let no_group = with("daemon", None);
    assert_eq!(
        switch_user(&no_group, Stage::User, Event::User(Some((2, 3)))),
        (Stage::Caps { uid: 2, gid: 3 }, Action::KeepCaps)
    );
    assert_eq!(switch_user(&request, Stage::Caps { uid: 2, gid: 3 }, Event::Failed).1, Action::Done(Err(SwitchError::KeepCaps)));
    assert_eq!(switch_user(&request, Stage::Gid { uid: 2, gid: 3 }, Event::Failed).1, Action::Done(Err(SwitchError::SetGid(3))));
    assert_eq!(switch_user(&request, Stage::Uid { uid: 2 }, Event::Failed).1, Action::Done(Err(SwitchError::SetUid(2))));
    assert_eq!(switch_user(&request, Stage::Cut, Event::Failed).1, Action::Done(Err(SwitchError::SetCaps)));
    // an answer that was not asked for ends the switch as a failure
    assert_eq!(
        switch_user(&request, Stage::Over, Event::Succeeded),
        (Stage::Over, Action::Done(Err(SwitchError::OutOfTurn)))
    );
    assert_eq!(
        switch_user(&request, Stage::Start, Event::Succeeded),
        (Stage::Over, Action::Done(Err(SwitchError::OutOfTurn)))
    );
    assert_eq!(
        switch_user(&request, Stage::Gid { uid: 2, gid: 3 }, Event::Begin).1,
        Action::Done(Err(SwitchError::OutOfTurn))
    );
}

#[test]
fn clients_windows_and_outcomes() {
    let rules: Vec<_> = ["client-rule 192.168.1.0/24 -group lan", "client-rule ip-set:guests -g guests", "client-rule 192.168.0.0/16 -no-cache"]
        .iter()
        .map(|line| match parse_line(line.as_bytes()).unwrap() {
            OneConfig::ClientRule(rule) => rule,
            _ => panic!("no client rule"),
        })
        .collect();
    assert_eq!(rules[0].group, Some(b"lan".to_vec()));
    assert!(rules[2].no_cache);
    assert_eq!(match_client(&rules, ip("192.168.1.7")), Some(0));
    assert_eq!(match_client(&rules, ip("192.168.2.7")), Some(2));
    assert_eq!(match_client(&rules, ip("10.0.0.1")), None);

    let net = |text: &str| smartdns::ip::IpNet::from_bytes(text.as_bytes());
    assert_eq!(select_subnet(net("1.0.0.0/8"), net("2.0.0.0/8"), net("3.0.0.0/8")), net("1.0.0.0/8"));
    assert_eq!(select_subnet(None, net("2.0.0.0/8"), net("3.0.0.0/8")), net("2.0.0.0/8"));
    assert_eq!(select_subnet(None, None, net("3.0.0.0/8")), net("3.0.0.0/8"));
    assert_eq!(select_subnet(None, None, None), None);

    assert!(in_gather_window(1010, 10, 5000));
    assert!(!in_gather_window(1011, 10, 5000));
    assert!(!in_gather_window(900, 10, 800));
    assert!(in_gather_window(5, 10, 800));
    assert!(in_gather_window(u64::MAX, u64::MAX, u64::MAX));
    assert!(probe_is_current(1000, 1120));
    assert!(!probe_is_current(1000, 1121));
    assert!(probe_is_current(1000, 999));

    assert_eq!(rcode_of(ResolveError::NoRecordsFound), Rcode::NxDomain);
    assert_eq!(rcode_of(ResolveError::Refused), Rcode::Refused);
    for err in [ResolveError::Timeout, ResolveError::NoConnection, ResolveError::Protocol, ResolveError::ServFail, ResolveError::Io] {
        assert_eq!(rcode_of(err), Rcode::ServFail);
    }
    assert_eq!(Message::servfail().rcode, Rcode::ServFail);
    assert_eq!(
        [Outcome::Success, Outcome::ConfigError, Outcome::RuntimeFatal, Outcome::Interrupted].map(exit_code),
        [0, 1, 2, 130]
    );
}
