use smartdns::config::domain::{Domain, WildcardName};
use smartdns::config::rule::DomainRule;
use smartdns::config::value::{AddressRuleValue, ResponseMode};
use smartdns::name::Name;
use smartdns::rule_table::{same_pattern, RuleTable};

fn name(text: &str) -> Name {
    Name::from_str(text).unwrap()
}

fn pattern(text: &str) -> WildcardName {
    WildcardName::from_str(text).unwrap()
}

fn table(patterns: &[&str]) -> RuleTable<usize> {
    let mut t = RuleTable::new();
    for (i, p) in patterns.iter().enumerate() {
        t.insert(pattern(p), i);
    }
    t
}

#[test]
fn the_most_specific_kind_is_chosen() {
    let t = table(&["example.com", "+.example.com", "*.example.com", "-.example.com"]);
    assert_eq!(t.lookup(&name("example.com")), Some(&3));
    assert_eq!(t.lookup(&name("a.example.com")), Some(&2));
    assert_eq!(t.lookup(&name("b.a.example.com")), Some(&1));
    assert_eq!(t.lookup(&name("example.org")), None);
    assert_eq!(t.find(&name("example.org")), None);
}

#[test]
fn within_a_kind_the_deepest_domain_is_chosen() {
    let t = table(&["a.example.com", "com", "example.com"]);
    assert_eq!(t.lookup(&name("x.a.example.com")), Some(&0));
    assert_eq!(t.lookup(&name("x.example.com")), Some(&2));
    assert_eq!(t.lookup(&name("x.other.com")), Some(&1));
}

#[test]
fn the_kind_counts_before_the_depth() {
    // all below `example.com` is a more specific kind than `a.example.com` with all below
    let t = table(&["a.example.com", "+.example.com"]);
    assert_eq!(t.lookup(&name("x.a.example.com")), Some(&1));
}

#[test]
fn of_two_that_are_level_the_later_wins() {
    let t = table(&["a*.example.com", "*b.example.com"]);
    assert_eq!(t.lookup(&name("ab.example.com")), Some(&1));
    assert_eq!(t.lookup(&name("ax.example.com")), Some(&0));
}

#[test]
fn a_pattern_stands_in_the_table_once() {
    let mut t = table(&["example.com", "example.org"]);
    assert_eq!(t.len(), 2);
    assert_eq!(t.insert(pattern("EXAMPLE.com"), 7), Some(0));
    assert_eq!(t.len(), 2);
    assert_eq!(t.lookup(&name("example.com")), Some(&7));
    assert_eq!(t.position(&pattern("example.com")), Some(1));
    assert_eq!(t.position(&pattern("example.net")), None);
    let (p, v) = t.get(0);
    assert!(same_pattern(p, &pattern("example.org")));
    assert_eq!(*v, 1);
}

#[test]
fn a_more_specific_rule_overrides_field_by_field() {
    let parent = DomainRule {
        address: Some(AddressRuleValue::SOA),
        rr_ttl: Some(300),
        no_cache: true,
        ..Default::default()
    };
    let child = DomainRule {
        rr_ttl: Some(60),
        response_mode: Some(ResponseMode::FastestIp),
        ..Default::default()
    };
    let merged = DomainRule::merge(&parent, &child);
    assert_eq!(merged.address, Some(AddressRuleValue::SOA));
    assert_eq!(merged.rr_ttl, Some(60));
    assert_eq!(merged.response_mode, Some(ResponseMode::FastestIp));
    assert!(merged.no_cache);
    assert!(!merged.no_serve_expired);
    assert_eq!(merged.clone(), merged);
}

#[test]
fn domains_read_back() {
    for text in ["domain-set:ads", "example.com", "*.example.com"] {
        let d = Domain::from_str(text).unwrap();
        assert_eq!(d.to_bytes(), text.as_bytes().to_vec());
        assert_eq!(d.clone(), d);
    }
    assert_eq!(Domain::from_str("domain-set:"), None);
    assert_eq!(Domain::from_str("domain-set:a/b"), None);
}

fn rule(line: &str) -> (WildcardName, DomainRule) {
    match smartdns::config::parser::parse_line(line.as_bytes()).unwrap() {
        smartdns::config::parser::OneConfig::DomainRule(r) => match r.domain {
            Domain::Name(p) => (p, r.config),
            _ => panic!("a set"),
        },
        _ => panic!("no rule"),
    }
}

#[test]
fn the_rule_in_force_takes_each_policy_from_the_most_preferred_rule_that_sets_it() {
    let mut t = RuleTable::new();
    for line in [
        "domain-rule /com/ -rr-ttl 300 -nameserver world -no-cache",
        "domain-rule /-.www.example.com/ -address 10.0.0.1",
        "domain-rule /example.com/ -rr-ttl 60 -response-mode fastest-ip",
        "domain-rule /+.example.com/ -nameserver office",
        "domain-rule /example.org/ -address #",
    ] {
        let (p, r) = rule(line);
        t.insert(p, r);
    }
    // from the least preferred to the chosen one
    assert_eq!(t.ranking(&name("www.example.com")), vec![0, 2, 3, 1]);
    assert_eq!(t.find(&name("www.example.com")), Some(1));
    let r = t.effective(&name("www.example.com")).unwrap();
    assert_eq!(r.address, Some(AddressRuleValue::Addr(smartdns::ip::IpAddr::V4(0x0A000001))));
    assert_eq!(r.nameserver, Some(b"office".to_vec()));
    assert_eq!(r.rr_ttl, Some(60));
    assert_eq!(r.response_mode, Some(ResponseMode::FastestIp));
    assert!(r.no_cache);

    assert_eq!(t.ranking(&name("example.com")), vec![0, 2]);
    let r = t.effective(&name("example.com")).unwrap();
    assert_eq!((r.address, r.nameserver, r.rr_ttl), (None, Some(b"world".to_vec()), Some(60)));
    assert_eq!(t.ranking(&name("example.net")), Vec::<usize>::new());
    assert_eq!(t.effective(&name("example.net")), None);
    assert_eq!(t.effective(&name("example.org")).unwrap().address, Some(AddressRuleValue::SOA));
}

#[test]
fn later_lines_for_a_pattern_are_laid_over_the_earlier_ones() {
    let mut t = RuleTable::new();
    let (p, r) = rule("domain-rule /example.com/ -rr-ttl 300 -no-cache");
    t.attach(p, r);
    let (p, r) = rule("domain-rule /example.org/ -rr-ttl 10");
    t.attach(p, r);
    let (p, r) = rule("domain-rule /EXAMPLE.com/ -rr-ttl 60 -nameserver office");
    t.attach(p, r);
    assert_eq!(t.len(), 2);
    let r = t.lookup(&name("example.com")).unwrap();
    assert_eq!((r.rr_ttl, r.nameserver.clone(), r.no_cache), (Some(60), Some(b"office".to_vec()), true));
    assert_eq!(t.position(&pattern("example.com")), Some(1));

    let (_, blocked) = rule("domain-rule /ads.test/ -address #");
    t.attach_set(&vec![pattern("ads.example"), pattern("example.org"), pattern("*.tracker.example")], &blocked);
    assert_eq!(t.len(), 4);
    assert_eq!(t.lookup(&name("x.ads.example")).unwrap().address, Some(AddressRuleValue::SOA));
    let r = t.lookup(&name("example.org")).unwrap();
    assert_eq!((r.rr_ttl, r.address), (Some(10), Some(AddressRuleValue::SOA)));
    assert!(t.lookup(&name("tracker.example")).is_none());
    assert!(t.lookup(&name("a.tracker.example")).is_some());
}
