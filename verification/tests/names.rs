use smartdns::name::{check_label, order_bytes, Name};
use std::cmp::Ordering;
use std::str::FromStr;
use trust_dns_resolver::Name as DnsName;

fn name(text: &str) -> Name {
    Name::from_str(text).unwrap()
}

#[test]
fn names_are_read_in_canonical_form() {
    let n = name("WWW.Example.COM.");
    assert_eq!(n.num_labels(), 3);
    assert_eq!(n.label(0), b"www");
    assert_eq!(n.label(2), b"com");
    assert_eq!(n.to_bytes(), b"www.example.com".to_vec());
    assert_eq!(n, name("www.example.com"));
    assert!(n.same_as(&name("www.example.com")));
    assert_eq!(Name::from_bytes(&n.to_bytes()), Some(n));
}

#[test]
fn the_root_is_a_single_dot() {
    let root = name(".");
    assert!(root.is_root());
    assert_eq!(root.num_labels(), 0);
    assert_eq!(root.to_bytes(), b".".to_vec());
    assert_eq!(root.dotted(), b"".to_vec());
    assert_eq!(root, Name::root());
    assert_eq!(Name::from_dotted(b""), Some(Name::root()));
}

#[test]
fn what_is_no_name() {
    assert_eq!(Name::from_str(""), None);
    assert_eq!(Name::from_str(".."), None);
    assert_eq!(Name::from_str("a..b"), None);
    assert_eq!(Name::from_str("-a.example"), None);
    assert_eq!(Name::from_str("a b.example"), None);
    assert_eq!(Name::from_str("ex/ample.com"), None);
    assert_eq!(Name::from_str(&"a".repeat(64)), None);
    assert!(Name::from_str(&"a".repeat(63)).is_some());
    assert!(check_label(b"_dmarc"));
    assert!(!check_label(b""));
    assert!(!check_label(b"Upper"));
    let labels: Vec<Vec<u8>> = (0..128).map(|_| b"a".to_vec()).collect();
    assert_eq!(Name::from_labels(labels), None);
}

#[test]
fn zones_and_parents() {
    let zone = name("example.com");
    assert!(zone.zone_of(&name("example.com")));
    assert!(zone.zone_of(&name("a.b.example.com")));
    assert!(!zone.zone_of(&name("com")));
    assert!(!zone.zone_of(&name("badexample.com")));
    assert!(Name::root().zone_of(&zone));
    assert_eq!(name("a.example.com").base_name(), zone);
    assert_eq!(name("com").base_name(), Name::root());
    assert_eq!(Name::root().base_name(), Name::root());
}

#[test]
fn names_are_ordered_from_the_root() {
    assert_eq!(name("example.com").order(&name("a.example.com")), -1);
    assert_eq!(name("z.example.com").order(&name("a.example.org")), -1);
    assert_eq!(name("b.example.com").order(&name("a.example.com")), 1);
    assert_eq!(name("example.com").order(&name("example.com")), 0);
    assert_eq!(Name::root().order(&name("com")), -1);
    assert_eq!(order_bytes(b"ab", b"abc"), -1);
    assert_eq!(order_bytes(b"b", b"abc"), 1);
    assert_eq!(order_bytes(b"", b""), 0);
}

fn labels_of(name: &Name) -> Vec<Vec<u8>> {
    (0..name.num_labels()).map(|i| name.label(i).to_vec()).collect()
}

#[test]
fn names_agree_with_the_resolver_crate() {
    let texts = [
        "example.com",
        "WWW.Example.COM.",
        "a.b.c.example.org",
        "xn--bcher-kva.example",
        "_sip._tcp.example.com",
        "b.example.com",
        "example.org",
        "com",
        ".",
    ];
    for text in texts {
        let ours = name(text);
        let theirs = DnsName::from_str(text).unwrap().to_lowercase();
        let their_labels: Vec<Vec<u8>> = theirs.iter().map(|l| l.to_vec()).collect();
        assert_eq!(labels_of(&ours), their_labels, "{text}");
        assert_eq!(Name::from_labels(their_labels), Some(ours.clone()));
        let their_parent: Vec<Vec<u8>> = theirs.base_name().iter().map(|l| l.to_vec()).collect();
        assert_eq!(labels_of(&ours.base_name()), their_parent, "{text}");
        for other in texts {
            let ours_other = name(other);
            let theirs_other = DnsName::from_str(other).unwrap().to_lowercase();
            assert_eq!(ours.zone_of(&ours_other), theirs.zone_of(&theirs_other), "{text} over {other}");
            let sign = match theirs.cmp(&theirs_other) {
                Ordering::Less => -1,
                Ordering::Equal => 0,
                Ordering::Greater => 1,
            };
            assert_eq!(ours.order(&ours_other), sign, "{text} and {other}");
        }
    }
}
