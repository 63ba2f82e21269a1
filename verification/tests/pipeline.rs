use smartdns::cache::{Cache, CacheKey, ServePolicy, Source};
use smartdns::config::domain::Domain;
use smartdns::config::item::ClientRule;
use smartdns::config::parser::{parse_line, OneConfig};
use smartdns::config::rule::DomainRule;
use smartdns::config::server::ListenerConfig;
use smartdns::dns::{DefaultSOA, RData};
use smartdns::hosts::{lookup_hosts, parse_hosts_line, HostsEntry};
use smartdns::ip::IpAddr;
use smartdns::message::{Rcode, TYPE_A, TYPE_AAAA};
use smartdns::name::Name;
use smartdns::cache::TtlPolicy;
use smartdns::config::value::ResponseMode;
use smartdns::ip::IpOrSet;
use smartdns::message::{Message, Record};
use smartdns::pipeline::{
    addresses_of, after_upstream, before_upstream, finish, limits_of, store_ttl_for, usable_answer,
    RequestContext, Step,
};
use smartdns::dns::SOA;
use smartdns::resolve::{
    find_soa_minimum, flatten_sets, is_listed_in, keep_reachable, order_by_speed, LoadedIpSet, Probe,
};
use smartdns::rule_table::RuleTable;

fn name(text: &str) -> Name {
    Name::from_str(text).unwrap()
}

fn ip(text: &str) -> IpAddr {
    IpAddr::from_bytes(text.as_bytes()).unwrap()
}

fn question(text: &str, qtype: u16) -> CacheKey {
    CacheKey { name: name(text), qtype, qclass: 1 }
}

fn rules(lines: &[&str]) -> RuleTable<DomainRule> {
    let mut table = RuleTable::new();
    for line in lines {
        let OneConfig::DomainRule(rule) = parse_line(line.as_bytes()).unwrap() else {
            panic!("no rule");
        };
        let Domain::Name(pattern) = rule.domain else { panic!("a set") };
        table.insert(pattern, rule.config);
    }
    table
}

fn listener(line: &str) -> ListenerConfig {
    match parse_line(line.as_bytes()).unwrap() {
        OneConfig::Listener(l) => l,
        _ => panic!("no listener"),
    }
}

fn client_rules(lines: &[&str]) -> Vec<ClientRule> {
    lines
        .iter()
        .map(|line| match parse_line(line.as_bytes()).unwrap() {
            OneConfig::ClientRule(rule) => rule,
            _ => panic!("no client rule"),
        })
        .collect()
}

const WIDE: TtlPolicy = TtlPolicy { rr_ttl_min: None, rr_ttl_max: None, rr_ttl_reply_max: None };

const SERVE: ServePolicy = ServePolicy {
    serve_expired: true,
    serve_expired_ttl: 600,
    serve_expired_reply_ttl: 5,
    prefetch: false,
};

#[test]
fn hosts_lines() {
    let entry = parse_hosts_line(b"127.0.0.1  localhost  Localhost.localdomain # loopback").unwrap();
    assert_eq!(entry, HostsEntry { ip: ip("127.0.0.1"), names: vec![name("localhost"), name("localhost.localdomain")] });
    assert_eq!(parse_hosts_line(b"::1 ip6-localhost").unwrap().ip, ip("::1"));
    assert_eq!(parse_hosts_line(b""), None);
    assert_eq!(parse_hosts_line(b"# 10.0.0.1 router"), None);
    assert_eq!(parse_hosts_line(b"10.0.0.1"), None);
    assert_eq!(parse_hosts_line(b"10.0.0.1 # router"), None);
    assert_eq!(parse_hosts_line(b"router 10.0.0.1"), None);
    assert_eq!(parse_hosts_line(b"10.0.0.1 rou/ter"), None);

    let entries: Vec<HostsEntry> = ["10.0.0.1 router gw", "fd00::1 router", "10.0.0.2 nas", "10.0.0.9 GW"]
        .iter()
        .map(|line| parse_hosts_line(line.as_bytes()).unwrap())
        .collect();
    assert_eq!(lookup_hosts(&entries, &name("router"), TYPE_A), vec![ip("10.0.0.1")]);
    assert_eq!(lookup_hosts(&entries, &name("router"), TYPE_AAAA), vec![ip("fd00::1")]);
    assert_eq!(lookup_hosts(&entries, &name("gw"), TYPE_A), vec![ip("10.0.0.1"), ip("10.0.0.9")]);
    assert_eq!(lookup_hosts(&entries, &name("nas"), TYPE_AAAA), Vec::<IpAddr>::new());
    assert_eq!(lookup_hosts(&entries, &name("router"), 16), Vec::<IpAddr>::new());
}

#[test]
fn the_rule_names_the_group_before_the_client_does() {
    let table = rules(&["domain-rule /example.com/ -nameserver office -no-cache", "domain-rule /example.org/ -rr-ttl 60"]);
    let clients = client_rules(&["client-rule 192.168.0.0/16 -group lan", "client-rule 10.0.0.0/8 -no-cache"]);
    let plain = listener("bind :53");
    let guests = listener("bind :5353 -group guests");

    let ctx = RequestContext::new(question("www.example.com", TYPE_A), ip("192.168.1.2"), &plain, &clients, &table);
    assert_eq!(ctx.matched_rule, Some(0));
    assert_eq!(ctx.chosen_group, b"office".to_vec());
    assert!(ctx.no_cache && !ctx.background);

    let ctx = RequestContext::new(question("www.example.org", TYPE_A), ip("192.168.1.2"), &guests, &clients, &table);
    assert_eq!(ctx.matched_rule, Some(1));
    assert_eq!(ctx.chosen_group, b"lan".to_vec());
    assert!(!ctx.no_cache);

    let ctx = RequestContext::new(question("www.example.org", TYPE_A), ip("10.1.1.1"), &guests, &clients, &table);
    assert_eq!(ctx.chosen_group, b"guests".to_vec());
    assert!(ctx.no_cache);

    let ctx = RequestContext::new(question("www.example.net", TYPE_A), ip("172.16.0.1"), &plain, &clients, &table);
    assert_eq!(ctx.matched_rule, None);
    assert_eq!(ctx.chosen_group, b"default".to_vec());

    let no_rule = listener("bind-tcp :53 -no-rule -no-cache");
    let ctx = RequestContext::new(question("www.example.com", TYPE_A), ip("172.16.0.1"), &no_rule, &clients, &table);
    assert_eq!(ctx.matched_rule, None);
    assert_eq!(ctx.chosen_group, b"default".to_vec());
    assert!(ctx.no_cache);
}

#[test]
fn a_forced_answer_comes_before_the_cache() {
    let table = rules(&["domain-rule /blocked.test/ -address #", "domain-rule /strict.test/ -no-serve-expired"]);
    let plain = listener("bind :53");
    let mut cache: Cache<&str> = Cache::new(8);
    cache.insert(question("blocked.test", TYPE_A), "cached", 300, 0, Source::Upstream);
    cache.insert(question("strict.test", TYPE_A), "strict", 300, 0, Source::Upstream);
    cache.insert(question("free.test", TYPE_A), "free", 300, 0, Source::Upstream);

    let ctx = RequestContext::new(question("blocked.test", TYPE_A), ip("10.0.0.1"), &plain, &vec![], &table);
    let Step::Reply(reply) = before_upstream(&ctx, &table, &vec![], &vec![], &mut cache, 10, &SERVE, &WIDE, 30) else {
        panic!("no reply");
    };
    assert_eq!((reply.rcode, reply.answer.len()), (Rcode::NoError, 0));
    assert_eq!(reply.authority[0].data, RData::default_soa());
    assert_eq!(cache.entry(0).hit_count, 0);

    // a fresh entry is served and becomes the one used most recently
    let ctx = RequestContext::new(question("free.test", TYPE_A), ip("10.0.0.1"), &plain, &vec![], &table);
    let Step::Serve { at, ttl, refresh } = before_upstream(&ctx, &table, &vec![], &vec![], &mut cache, 10, &SERVE, &WIDE, 30) else {
        panic!("not served");
    };
    assert_eq!((at, ttl, refresh), (2, 290, false));
    assert_eq!((cache.entry(at).value, cache.entry(at).hit_count), ("free", 1));

    // past its time to live it is served with a short time to live, and a refresh is due
    let Step::Serve { at, ttl, refresh } = before_upstream(&ctx, &table, &vec![], &vec![], &mut cache, 301, &SERVE, &WIDE, 30) else {
        panic!("not served");
    };
    assert_eq!((cache.entry(at).value, ttl, refresh), ("free", 5, true));
    assert!(matches!(before_upstream(&ctx, &table, &vec![], &vec![], &mut cache, 601, &SERVE, &WIDE, 30), Step::AskUpstream));

    // the refresh itself goes upstream
    let refreshing = RequestContext { background: true, ..RequestContext::new(question("free.test", TYPE_A), ip("10.0.0.1"), &plain, &vec![], &table) };
    assert!(matches!(before_upstream(&refreshing, &table, &vec![], &vec![], &mut cache, 10, &SERVE, &WIDE, 30), Step::AskUpstream));

    // a rule can forbid answers past their time to live
    let ctx = RequestContext::new(question("strict.test", TYPE_A), ip("10.0.0.1"), &plain, &vec![], &table);
    assert!(matches!(before_upstream(&ctx, &table, &vec![], &vec![], &mut cache, 10, &SERVE, &WIDE, 30), Step::Serve { ttl: 290, .. }));
    assert!(matches!(before_upstream(&ctx, &table, &vec![], &vec![], &mut cache, 301, &SERVE, &WIDE, 30), Step::AskUpstream));

    let ctx = RequestContext::new(question("unknown.test", TYPE_A), ip("10.0.0.1"), &plain, &vec![], &table);
    assert!(matches!(before_upstream(&ctx, &table, &vec![], &vec![], &mut cache, 10, &SERVE, &WIDE, 30), Step::AskUpstream));
}

fn a(owner: &str, addr: &str, ttl: u32) -> Record {
    let IpAddr::V4(v) = ip(addr) else { panic!("not an IPv4 address") };
    Record { name: name(owner), ttl, data: RData::A(v) }
}

fn answer(records: Vec<Record>) -> Message {
    Message { rcode: Rcode::NoError, answer: records, authority: vec![], additional: vec![] }
}

#[test]
fn a_query_is_settled_on_the_answers_of_the_servers() {
    let table = rules(&[]);
    let plain = listener("bind :53");
    let ctx = RequestContext::new(question("example.com", TYPE_A), ip("10.0.0.1"), &plain, &vec![], &table);
    let limits = TtlPolicy { rr_ttl_min: Some(60), rr_ttl_max: Some(3600), rr_ttl_reply_max: Some(30) };
    let failed = Message { rcode: Rcode::ServFail, answer: vec![], authority: vec![], additional: vec![] };
    // A answers first with 1.1.1.1, B second with 2.2.2.2; 2.2.2.2 is the faster address
    let answers = vec![
        failed,
        answer(vec![a("example.com", "1.1.1.1", 300)]),
        answer(vec![a("example.com", "2.2.2.2", 20), a("example.com", "243.185.187.39", 10)]),
    ];
    let probes = vec![Probe { ip: ip("1.1.1.1"), rtt: Some(50) }, Probe { ip: ip("2.2.2.2"), rtt: Some(5) }];
    let bogus = vec![IpOrSet::from_bytes(b"243.185.187.39/32").unwrap()];

    let settled = after_upstream(&ctx, &answers, &probes, ResponseMode::FirstPing, &bogus, &vec![], &limits, 30);
    assert_eq!(settled.chosen, Some(2));
    assert_eq!(settled.reply.answer, vec![a("example.com", "2.2.2.2", 20)]);
    assert_eq!(settled.store_ttl, Some(60));

    let settled = after_upstream(&ctx, &answers, &probes, ResponseMode::FastestResponse, &bogus, &vec![], &limits, 30);
    assert_eq!(settled.chosen, Some(1));
    assert_eq!(settled.reply.answer, vec![a("example.com", "1.1.1.1", 30)]);
    assert_eq!(settled.store_ttl, Some(300));

    // an answer that is emptied gives way to "no such data"
    let only_bogus = vec![answer(vec![a("example.com", "243.185.187.39", 300)])];
    let settled = after_upstream(&ctx, &only_bogus, &probes, ResponseMode::FastestIp, &bogus, &vec![], &limits, 600);
    assert_eq!(settled.chosen, Some(0));
    assert!(settled.reply.answer.is_empty());
    assert_eq!(settled.reply.authority[0].data, RData::default_soa());
    assert_eq!(settled.reply.authority[0].ttl, 30);
    assert_eq!(settled.answer.authority[0].ttl, 600);
    // stored for the time that its start-of-authority record names, within the limits
    assert_eq!(settled.store_ttl, Some(3600));

    // where every server failed, the client is told so, and nothing is stored
    let none = vec![Message { rcode: Rcode::Refused, answer: vec![], authority: vec![], additional: vec![] }];
    let settled = after_upstream(&ctx, &none, &probes, ResponseMode::FirstPing, &bogus, &vec![], &limits, 30);
    assert_eq!((settled.chosen, settled.reply.rcode, settled.store_ttl), (None, Rcode::ServFail, None));
    let settled = after_upstream(&ctx, &vec![], &probes, ResponseMode::FastestResponse, &bogus, &vec![], &limits, 30);
    assert_eq!((settled.chosen, settled.reply.rcode), (None, Rcode::ServFail));

    let uncached = RequestContext { no_cache: true, ..RequestContext::new(question("example.com", TYPE_A), ip("10.0.0.1"), &plain, &vec![], &table) };
    assert_eq!(after_upstream(&uncached, &answers, &probes, ResponseMode::FirstPing, &bogus, &vec![], &limits, 30).store_ttl, None);
    assert_eq!(addresses_of(&answers[2].answer), vec![ip("2.2.2.2"), ip("243.185.187.39")]);
}

#[test]
fn hosts_and_aliases_come_before_the_cache() {
    let table = rules(&[
        "domain-rule /blocked.test/ -address #",
        "domain-rule /alias.test/ -cname target.test",
        "domain-rule /plain.test/ -cname -",
    ]);
    let plain = listener("bind :53");
    let wide = TtlPolicy { rr_ttl_min: None, rr_ttl_max: None, rr_ttl_reply_max: Some(60) };
    let hosts: Vec<HostsEntry> = ["10.0.0.1 router blocked.test", "10.0.0.2 router", "fd00::1 router"]
        .iter()
        .map(|line| parse_hosts_line(line.as_bytes()).unwrap())
        .collect();
    let mut cache: Cache<&str> = Cache::new(8);
    cache.insert(question("router", TYPE_A), "cached", 300, 0, Source::Upstream);
    cache.insert(question("alias.test", TYPE_A), "cached", 300, 0, Source::Upstream);

    // the hosts files answer before anything else, and the cache is left alone
    let ctx = RequestContext::new(question("router", TYPE_A), ip("10.0.0.9"), &plain, &vec![], &table);
    let Step::Reply(reply) = before_upstream(&ctx, &table, &hosts, &vec![], &mut cache, 10, &SERVE, &wide, 600) else {
        panic!("no reply");
    };
    assert_eq!(reply.answer, vec![a("router", "10.0.0.1", 60), a("router", "10.0.0.2", 60)]);
    assert_eq!(cache.entry(0).hit_count, 0);
    let ctx = RequestContext::new(question("blocked.test", TYPE_A), ip("10.0.0.9"), &plain, &vec![], &table);
    let Step::Reply(reply) = before_upstream(&ctx, &table, &hosts, &vec![], &mut cache, 10, &SERVE, &wide, 30) else {
        panic!("no reply");
    };
    assert_eq!(reply.answer, vec![a("blocked.test", "10.0.0.1", 30)]);
    // for another type they have nothing, and the rule answers
    let ctx = RequestContext::new(question("blocked.test", TYPE_AAAA), ip("10.0.0.9"), &plain, &vec![], &table);
    let Step::Reply(reply) = before_upstream(&ctx, &table, &hosts, &vec![], &mut cache, 10, &SERVE, &wide, 30) else {
        panic!("no reply");
    };
    assert!(reply.answer.is_empty());
    assert_eq!(reply.authority[0].data, RData::default_soa());

    // the name that a rule puts in place of the one asked for is followed, not the cache
    let ctx = RequestContext::new(question("alias.test", TYPE_A), ip("10.0.0.9"), &plain, &vec![], &table);
    let Step::Follow { target } = before_upstream(&ctx, &table, &hosts, &vec![], &mut cache, 10, &SERVE, &wide, 30) else {
        panic!("not followed");
    };
    assert_eq!(target, name("target.test"));
    // but not in a circle, and not for ever
    let Step::Reply(reply) = before_upstream(&ctx, &table, &hosts, &vec![name("target.test")], &mut cache, 10, &SERVE, &wide, 30) else {
        panic!("no reply");
    };
    assert_eq!(reply.rcode, Rcode::ServFail);
    let long: Vec<Name> = (0..16).map(|i| name(&format!("n{i}.test"))).collect();
    assert!(matches!(
        before_upstream(&ctx, &table, &hosts, &long, &mut cache, 10, &SERVE, &wide, 30),
        Step::Reply(Message { rcode: Rcode::ServFail, .. })
    ));
    assert!(matches!(
        before_upstream(&ctx, &table, &hosts, &long[..15].to_vec(), &mut cache, 10, &SERVE, &wide, 30),
        Step::Follow { .. }
    ));
    // a rule that sets aliases aside lets the query pass
    let ctx = RequestContext::new(question("plain.test", TYPE_A), ip("10.0.0.9"), &plain, &vec![], &table);
    assert!(matches!(before_upstream(&ctx, &table, &hosts, &vec![], &mut cache, 10, &SERVE, &wide, 30), Step::AskUpstream));
    assert_eq!(
        Message::addresses_for(&name("x.test"), &vec![ip("fd00::1"), ip("10.0.0.1")], 9).answer.len(),
        2
    );
}

fn cname(owner: &str, target: &str, ttl: u32) -> Record {
    Record { name: name(owner), ttl, data: RData::CNAME(name(target)) }
}

fn soa(owner: &str, ttl: u32, minimum: u32) -> Record {
    let soa = SOA { minimum, ..SOA::default_soa() };
    Record { name: name(owner), ttl, data: RData::SOA(soa) }
}

#[test]
fn what_is_sent_before_the_servers_are_asked_is_capped() {
    let table = rules(&[
        "domain-rule /blocked.test/ -address # -rr-ttl-reply-max 10",
        "domain-rule /pinned.test/ -address 10.1.2.3",
        "domain-rule /short.test/ -rr-ttl-reply-max 7",
    ]);
    let plain = listener("bind :53");
    let wide = TtlPolicy { rr_ttl_min: None, rr_ttl_max: None, rr_ttl_reply_max: Some(60) };
    let mut cache: Cache<&str> = Cache::new(8);
    cache.insert(question("free.test", TYPE_A), "free", 300, 0, Source::Upstream);
    cache.insert(question("short.test", TYPE_A), "short", 300, 0, Source::Upstream);

    // a reply made for a rule: the limit of the rule holds
    let ctx = RequestContext::new(question("blocked.test", TYPE_A), ip("10.0.0.1"), &plain, &vec![], &table);
    assert_eq!(limits_of(&ctx, &table, &wide).rr_ttl_reply_max, Some(10));
    let Step::Reply(reply) = before_upstream(&ctx, &table, &vec![], &vec![], &mut cache, 10, &SERVE, &wide, 600) else {
        panic!("no reply");
    };
    assert_eq!(reply.authority[0].ttl, 10);
    // without a limit of its own, the resolver-wide one
    let ctx = RequestContext::new(question("pinned.test", TYPE_A), ip("10.0.0.1"), &plain, &vec![], &table);
    let Step::Reply(reply) = before_upstream(&ctx, &table, &vec![], &vec![], &mut cache, 10, &SERVE, &wide, 600) else {
        panic!("no reply");
    };
    assert_eq!(reply.answer, vec![a("pinned.test", "10.1.2.3", 60)]);
    let Step::Reply(reply) = before_upstream(&ctx, &table, &vec![], &vec![], &mut cache, 10, &SERVE, &wide, 30) else {
        panic!("no reply");
    };
    assert_eq!(reply.answer, vec![a("pinned.test", "10.1.2.3", 30)]);

    // an entry of the cache: 290 s are left, 60 are sent
    let ctx = RequestContext::new(question("free.test", TYPE_A), ip("10.0.0.1"), &plain, &vec![], &table);
    assert!(matches!(before_upstream(&ctx, &table, &vec![], &vec![], &mut cache, 10, &SERVE, &wide, 30), Step::Serve { ttl: 60, .. }));
    assert!(matches!(before_upstream(&ctx, &table, &vec![], &vec![], &mut cache, 280, &SERVE, &wide, 30), Step::Serve { ttl: 20, .. }));
    assert!(matches!(before_upstream(&ctx, &table, &vec![], &vec![], &mut cache, 301, &SERVE, &wide, 30), Step::Serve { ttl: 5, refresh: true, .. }));
    let ctx = RequestContext::new(question("short.test", TYPE_A), ip("10.0.0.1"), &plain, &vec![], &table);
    assert!(matches!(before_upstream(&ctx, &table, &vec![], &vec![], &mut cache, 10, &SERVE, &wide, 30), Step::Serve { ttl: 7, .. }));
    let tight = TtlPolicy { rr_ttl_reply_max: Some(3), ..wide };
    let ctx = RequestContext::new(question("free.test", TYPE_A), ip("10.0.0.1"), &plain, &vec![], &table);
    assert!(matches!(before_upstream(&ctx, &table, &vec![], &vec![], &mut cache, 301, &SERVE, &tight, 30), Step::Serve { ttl: 3, refresh: true, .. }));
}

#[test]
fn a_name_that_does_not_exist_is_passed_on_and_kept() {
    let table = rules(&[]);
    let plain = listener("bind :53");
    let ctx = RequestContext::new(question("nowhere.test", TYPE_A), ip("10.0.0.1"), &plain, &vec![], &table);
    let limits = TtlPolicy { rr_ttl_min: Some(60), rr_ttl_max: Some(3600), rr_ttl_reply_max: Some(30) };
    let failed = Message { rcode: Rcode::ServFail, answer: vec![], authority: vec![], additional: vec![] };
    let denied = Message { rcode: Rcode::NxDomain, answer: vec![], authority: vec![soa("test", 900, 120)], additional: vec![] };
    let answers = vec![failed, denied];
    let settled = after_upstream(&ctx, &answers, &vec![], ResponseMode::FirstPing, &vec![], &vec![], &limits, 30);
    assert_eq!(settled.chosen, Some(1));
    assert_eq!(settled.reply.rcode, Rcode::NxDomain);
    assert_eq!(settled.reply.authority, vec![soa("test", 30, 120)]);
    assert_eq!(settled.answer.authority, vec![soa("test", 900, 120)]);
    assert_eq!(settled.store_ttl, Some(120));
    // an answer that counts goes before it
    let both = vec![
        Message { rcode: Rcode::NxDomain, answer: vec![], authority: vec![soa("test", 900, 120)], additional: vec![] },
        answer(vec![a("nowhere.test", "1.1.1.1", 300)]),
    ];
    let settled = after_upstream(&ctx, &both, &vec![], ResponseMode::FastestResponse, &vec![], &vec![], &limits, 30);
    assert_eq!((settled.chosen, settled.reply.rcode), (Some(1), Rcode::NoError));
    // "no such data" is kept for the time that its start-of-authority record names
    let no_data = vec![Message { rcode: Rcode::NoError, answer: vec![], authority: vec![soa("test", 900, 30)], additional: vec![] }];
    let settled = after_upstream(&ctx, &no_data, &vec![], ResponseMode::FirstPing, &vec![], &vec![], &limits, 30);
    assert_eq!((settled.chosen, settled.store_ttl), (Some(0), Some(60)));
    // and not at all where it names none
    let bare = vec![Message { rcode: Rcode::NxDomain, answer: vec![], authority: vec![], additional: vec![] }];
    let settled = after_upstream(&ctx, &bare, &vec![], ResponseMode::FirstPing, &vec![], &vec![], &limits, 30);
    assert_eq!((settled.chosen, settled.reply.rcode, settled.store_ttl), (Some(0), Rcode::NxDomain, None));
    assert_eq!(find_soa_minimum(&vec![cname("a.test", "b.test", 5), soa("test", 900, 7), soa("test", 900, 9)]), Some(7));
    assert_eq!(find_soa_minimum(&vec![cname("a.test", "b.test", 5)]), None);
    assert_eq!(store_ttl_for(&answer(vec![a("a.test", "1.1.1.1", 10), a("a.test", "1.1.1.2", 4000)]), &limits), Some(60));
    assert_eq!(store_ttl_for(&answer(vec![a("a.test", "1.1.1.1", 4000)]), &limits), Some(3600));
}

#[test]
fn only_answers_of_the_whitelist_count() {
    let table = rules(&[]);
    let plain = listener("bind :53");
    let ctx = RequestContext::new(question("example.com", TYPE_A), ip("10.0.0.1"), &plain, &vec![], &table);
    let limits = TtlPolicy { rr_ttl_min: None, rr_ttl_max: None, rr_ttl_reply_max: None };
    let white = vec![IpOrSet::from_bytes(b"2.2.0.0/16").unwrap()];
    let answers = vec![
        answer(vec![a("example.com", "1.1.1.1", 300)]),
        answer(vec![a("example.com", "2.2.2.2", 300), a("example.com", "3.3.3.3", 300)]),
    ];
    assert!(!usable_answer(&answers[0], &white));
    assert!(usable_answer(&answers[1], &white));
    assert!(usable_answer(&answers[0], &vec![]));
    let settled = after_upstream(&ctx, &answers, &vec![], ResponseMode::FastestResponse, &vec![], &white, &limits, 30);
    assert_eq!(settled.chosen, Some(1));
    assert_eq!(settled.reply.answer.len(), 2);
    let settled = after_upstream(&ctx, &answers, &vec![], ResponseMode::FastestResponse, &vec![], &vec![], &limits, 30);
    assert_eq!(settled.chosen, Some(0));
    // where no answer is of the whitelist, the servers have failed
    let other = vec![IpOrSet::from_bytes(b"9.9.9.9").unwrap()];
    let settled = after_upstream(&ctx, &answers, &vec![], ResponseMode::FirstPing, &vec![], &other, &limits, 30);
    assert_eq!((settled.chosen, settled.reply.rcode, settled.store_ttl), (None, Rcode::ServFail, None));
}

#[test]
fn addresses_that_did_not_answer_are_held_back() {
    let table = rules(&[]);
    let plain = listener("bind :53");
    let ctx = RequestContext::new(question("example.com", TYPE_A), ip("10.0.0.1"), &plain, &vec![], &table);
    let limits = TtlPolicy { rr_ttl_min: None, rr_ttl_max: None, rr_ttl_reply_max: None };
    let records = vec![
        a("cdn.example.com", "1.1.1.1", 300),
        cname("example.com", "cdn.example.com", 300),
        a("cdn.example.com", "2.2.2.2", 300),
        a("cdn.example.com", "3.3.3.3", 300),
        a("cdn.example.com", "4.4.4.4", 300),
    ];
    let probes = vec![
        Probe { ip: ip("1.1.1.1"), rtt: Some(50) },
        Probe { ip: ip("2.2.2.2"), rtt: None },
        Probe { ip: ip("4.4.4.4"), rtt: Some(5) },
    ];
    let reachable = vec![
        a("cdn.example.com", "1.1.1.1", 300),
        cname("example.com", "cdn.example.com", 300),
        a("cdn.example.com", "4.4.4.4", 300),
    ];
    let fastest_first = vec![
        cname("example.com", "cdn.example.com", 300),
        a("cdn.example.com", "4.4.4.4", 300),
        a("cdn.example.com", "1.1.1.1", 300),
    ];
    assert_eq!(keep_reachable(&records, &probes), reachable);
    // nothing is held back where nothing answered
    assert_eq!(keep_reachable(&records, &vec![]), records);
    assert_eq!(order_by_speed(reachable.clone(), &probes), fastest_first);
    assert_eq!(
        order_by_speed(records.clone(), &probes),
        vec![
            cname("example.com", "cdn.example.com", 300),
            a("cdn.example.com", "4.4.4.4", 300),
            a("cdn.example.com", "1.1.1.1", 300),
            a("cdn.example.com", "2.2.2.2", 300),
            a("cdn.example.com", "3.3.3.3", 300),
        ]
    );
    assert_eq!(finish(answer(records.clone()), &probes, ResponseMode::FastestResponse).answer, records);
    assert_eq!(finish(answer(records.clone()), &probes, ResponseMode::FirstPing).answer, reachable);
    assert_eq!(finish(answer(records.clone()), &probes, ResponseMode::FastestIp).answer, fastest_first);

    let answers = vec![answer(vec![a("example.com", "1.1.1.1", 300)]), answer(records.clone())];
    let settled = after_upstream(&ctx, &answers, &probes, ResponseMode::FastestIp, &vec![], &vec![], &limits, 30);
    assert_eq!(settled.chosen, Some(1));
    assert_eq!(settled.reply.answer, fastest_first);
    let settled = after_upstream(&ctx, &answers, &probes, ResponseMode::FirstPing, &vec![], &vec![], &limits, 30);
    assert_eq!(settled.reply.answer, reachable);
    let settled = after_upstream(&ctx, &answers, &probes, ResponseMode::FastestResponse, &vec![], &vec![], &limits, 30);
    assert_eq!((settled.chosen, settled.reply.answer.len()), (Some(0), 1));
}

#[test]
fn named_sets_hold_what_was_loaded() {
    let net = |text: &str| match IpOrSet::from_bytes(text.as_bytes()).unwrap() {
        IpOrSet::Net(n) => n,
        _ => panic!("a set"),
    };
    let loaded = vec![
        LoadedIpSet { name: b"ads".to_vec(), blocks: vec![net("10.1.0.0/16"), net("10.2.0.0/16")] },
        LoadedIpSet { name: b"lan".to_vec(), blocks: vec![net("192.168.0.0/16")] },
        LoadedIpSet { name: b"ads".to_vec(), blocks: vec![net("fd00::/8")] },
    ];
    let sets = vec![
        IpOrSet::from_bytes(b"ip-set:ads").unwrap(),
        IpOrSet::from_bytes(b"243.185.187.39").unwrap(),
    ];
    assert!(is_listed_in(ip("10.2.3.4"), &sets, &loaded));
    assert!(is_listed_in(ip("fd00::1"), &sets, &loaded));
    assert!(is_listed_in(ip("243.185.187.39"), &sets, &loaded));
    assert!(!is_listed_in(ip("192.168.1.1"), &sets, &loaded));
    assert!(!is_listed_in(ip("10.2.3.4"), &sets, &vec![]));
    assert!(!smartdns::resolve::is_listed(ip("10.2.3.4"), &sets));
    let flat = flatten_sets(&sets, &loaded).unwrap();
    assert_eq!(
        flat,
        vec![
            IpOrSet::Net(net("10.1.0.0/16")),
            IpOrSet::Net(net("10.2.0.0/16")),
            IpOrSet::Net(net("fd00::/8")),
            IpOrSet::Net(net("243.185.187.39/32")),
        ]
    );
    for probe in ["10.2.3.4", "fd00::1", "243.185.187.39", "192.168.1.1", "8.8.8.8"] {
        assert_eq!(smartdns::resolve::is_listed(ip(probe), &flat), is_listed_in(ip(probe), &sets, &loaded));
    }
    // a set that was not loaded cannot be referred to
    assert_eq!(flatten_sets(&vec![IpOrSet::from_bytes(b"ip-set:other").unwrap()], &loaded), None);
    assert_eq!(flatten_sets(&vec![], &vec![]), Some(vec![]));

    // an answer is stripped of the addresses of a named set
    let table = rules(&[]);
    let plain = listener("bind :53");
    let ctx = RequestContext::new(question("example.com", TYPE_A), ip("10.0.0.1"), &plain, &vec![], &table);
    let limits = TtlPolicy { rr_ttl_min: None, rr_ttl_max: None, rr_ttl_reply_max: None };
    let answers = vec![answer(vec![a("example.com", "10.1.2.3", 300), a("example.com", "8.8.8.8", 300)])];
    let settled = after_upstream(&ctx, &answers, &vec![], ResponseMode::FastestResponse, &flat, &vec![], &limits, 30);
    assert_eq!(settled.reply.answer, vec![a("example.com", "8.8.8.8", 300)]);
}

#[test]
fn an_address_that_answered_is_not_passed_over_for_a_listed_one() {
    let table = rules(&[]);
    let plain = listener("bind :53");
    let ctx = RequestContext::new(question("example.com", TYPE_A), ip("10.0.0.1"), &plain, &vec![], &table);
    let limits = TtlPolicy { rr_ttl_min: None, rr_ttl_max: None, rr_ttl_reply_max: None };
    // the first answer holds the fastest address, which is listed, and one that did not answer
    let answers = vec![
        answer(vec![a("example.com", "1.1.1.1", 300), a("example.com", "3.3.3.3", 300)]),
        answer(vec![a("example.com", "2.2.2.2", 300)]),
    ];
    let probes = vec![
        Probe { ip: ip("1.1.1.1"), rtt: Some(5) },
        Probe { ip: ip("2.2.2.2"), rtt: Some(50) },
        Probe { ip: ip("3.3.3.3"), rtt: None },
    ];
    let listed = vec![IpOrSet::from_bytes(b"1.1.1.0/24").unwrap()];
    for mode in [ResponseMode::FirstPing, ResponseMode::FastestIp] {
        let settled = after_upstream(&ctx, &answers, &probes, mode, &listed, &vec![], &limits, 30);
        assert_eq!(settled.chosen, Some(1));
        assert_eq!(settled.reply.answer, vec![a("example.com", "2.2.2.2", 300)]);
    }
    // without the list the fastest address decides
    let settled = after_upstream(&ctx, &answers, &probes, ResponseMode::FirstPing, &vec![], &vec![], &limits, 30);
    assert_eq!(settled.chosen, Some(0));
    assert_eq!(settled.reply.answer, vec![a("example.com", "1.1.1.1", 300)]);
    // the first answer is taken as it comes, and cleaned
    let settled = after_upstream(&ctx, &answers, &probes, ResponseMode::FastestResponse, &listed, &vec![], &limits, 30);
    assert_eq!(settled.chosen, Some(0));
    assert_eq!(settled.reply.answer, vec![a("example.com", "3.3.3.3", 300)]);
    // an answer that the list empties is no better than one that holds an address that answered
    let emptied = vec![
        answer(vec![a("example.com", "1.1.1.1", 300)]),
        answer(vec![a("example.com", "2.2.2.2", 300)]),
    ];
    let settled = after_upstream(&ctx, &emptied, &probes, ResponseMode::FirstPing, &listed, &vec![], &limits, 30);
    assert_eq!(settled.chosen, Some(1));
}
