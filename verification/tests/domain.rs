use smartdns::config::domain::{Wildcard, WildcardError, WildcardName};
use smartdns::name::Name;
use std::cmp::Ordering;

fn name(text: &str) -> Name {
    Name::from_str(text).unwrap()
}

#[test]
fn test_wildcard_name_default() {
    let wildcard_name = WildcardName::from_str("example.com").unwrap();

    assert!(wildcard_name.is_match(&name("example.com")));
    assert!(wildcard_name.is_match(&name("a.example.com")));
    assert!(wildcard_name.is_match(&name("b.a.example.com")));
}

#[test]
fn test_wildcard_name_suffix() {
    let wildcard_name = WildcardName::from_str("+.example.com").unwrap();

    assert!(!wildcard_name.is_match(&name("example.com")));
    assert!(wildcard_name.is_match(&name("a.example.com")));
    assert!(wildcard_name.is_match(&name("b.a.example.com")));
}

#[test]
fn test_wildcard_name_sub() {
    let wildcard_name = WildcardName::from_str("*.example.com").unwrap();

    assert!(!wildcard_name.is_match(&name("example.com")));
    assert!(wildcard_name.is_match(&name("a.example.com")));
    assert!(!wildcard_name.is_match(&name("b.a.example.com")));
}

#[test]
fn test_wildcard_name_sub2() {
    let wildcard_name = WildcardName::from_str("a*b.example.com").unwrap();

    assert!(!wildcard_name.is_match(&name("example.com")));
    assert!(wildcard_name.is_match(&name("awwwb.example.com")));
    assert!(!wildcard_name.is_match(&name("awww.example.com")));
    assert!(!wildcard_name.is_match(&name("wwb.example.com")));
    assert!(!wildcard_name.is_match(&name("b.a.example.com")));
}

#[test]
fn test_wildcard_name_full() {
    let wildcard_name = WildcardName::from_str("-.example.com").unwrap();

    assert!(wildcard_name.is_match(&name("example.com")));
    assert!(!wildcard_name.is_match(&name("a.example.com")));
    assert!(!wildcard_name.is_match(&name("b.a.example.com")));
}

#[test]
fn glob_over_one_level_only() {
    let pattern = WildcardName::from_str("*.cdn.example.com").unwrap();
    assert!(pattern.is_sub());
    assert!(pattern.is_match(&name("a.cdn.example.com")));
    assert!(!pattern.is_match(&name("cdn.example.com")));
    assert!(!pattern.is_match(&name("x.a.cdn.example.com")));
}

#[test]
fn wildcard_matches_like_a_glob() {
    let glob = Wildcard::from_str("a?c*").unwrap();
    assert!(glob.is_match(b"abc"));
    assert!(glob.is_match(b"ABCdef"));
    assert!(!glob.is_match(b"ac"));
    assert!(!glob.is_match(b"xabc"));
    assert!(Wildcard::default().is_match(b"anything"));
    assert!(Wildcard::from_str("\\*").unwrap().is_match(b"*"));
    assert!(!Wildcard::from_str("\\*").unwrap().is_match(b"x"));
}

#[test]
fn wildcard_rejects_a_stray_backslash() {
    assert_eq!(
        Wildcard::from_str("ab\\c").unwrap_err(),
        WildcardError::Syntax { position: 2 }
    );
    assert_eq!(
        Wildcard::from_str("abc\\").unwrap_err(),
        WildcardError::Syntax { position: 3 }
    );
}

#[test]
fn pattern_text_reads_back() {
    for text in ["example.com", "+.example.com", "-.example.com", "*.example.com", "a*b.example.com", "."] {
        let pattern = WildcardName::from_str(text).unwrap();
        assert_eq!(pattern.to_bytes(), text.as_bytes().to_vec());
        assert_eq!(WildcardName::from_bytes(&pattern.to_bytes()).unwrap(), pattern);
    }
    assert_eq!(
        WildcardName::from_str(".Example.COM.").unwrap(),
        WildcardName::Suffix(name("example.com"))
    );
}

#[test]
fn patterns_order_by_domain_then_kind() {
    let full = WildcardName::from_str("-.example.com").unwrap();
    let sub = WildcardName::from_str("*.example.com").unwrap();
    let suffix = WildcardName::from_str("+.example.com").unwrap();
    let default = WildcardName::from_str("example.com").unwrap();
    let deeper = WildcardName::from_str("-.a.example.com").unwrap();
    assert_eq!(full.cmp(&sub), Ordering::Less);
    assert_eq!(sub.cmp(&suffix), Ordering::Less);
    assert_eq!(suffix.cmp(&default), Ordering::Less);
    assert_eq!(default.cmp(&deeper), Ordering::Less);
    assert_eq!(deeper.cmp(&full), Ordering::Greater);
    assert_eq!(default.cmp(&default), Ordering::Equal);
    assert_eq!(default.order(&full), 1);
}

/// Whether `pattern` matches the whole of `input`, worked out from the
/// meaning of `*`, `?` and `\` alone.
fn matches(pattern: &[u8], input: &[u8]) -> bool {
    match pattern.split_first() {
        None => input.is_empty(),
        Some((b'*', rest)) => matches(rest, input) || (!input.is_empty() && matches(pattern, &input[1..])),
        Some((b'?', rest)) => !input.is_empty() && matches(rest, &input[1..]),
        Some((b'\\', rest)) if !rest.is_empty() => {
            !input.is_empty() && rest[0].eq_ignore_ascii_case(&input[0]) && matches(&rest[1..], &input[1..])
        }
        Some((c, rest)) => !input.is_empty() && c.eq_ignore_ascii_case(&input[0]) && matches(rest, &input[1..]),
    }
}

fn texts(alphabet: &[u8], longest: usize) -> Vec<Vec<u8>> {
    let mut all = vec![Vec::new()];
    let mut last = vec![Vec::new()];
    for _ in 0..longest {
        let mut next = Vec::new();
        for text in &last {
            for b in alphabet {
                let mut longer = text.clone();
                longer.push(*b);
                next.push(longer);
            }
        }
        all.extend(next.iter().cloned());
        last = next;
    }
    all
}

#[test]
fn globs_mean_what_their_signs_mean() {
    let inputs = texts(b"aB*", 4);
    let mut globs = 0;
    for pattern in texts(b"Ab*?\\", 4) {
        match Wildcard::from_bytes(&pattern) {
            Ok(glob) => {
                globs += 1;
                if pattern == b"*" {
                    assert_eq!(glob, Wildcard::default());
                } else {
                    assert_eq!(glob.pattern(), &pattern[..]);
                }
                assert_eq!(Wildcard::from_bytes(&glob.to_bytes()), Ok(glob.clone()));
                for input in &inputs {
                    let expected = pattern.is_empty() || matches(&pattern, input);
                    assert_eq!(glob.is_match(input), expected, "{:?} on {:?}", pattern, input);
                }
            }
            Err(WildcardError::Syntax { position }) => {
                // the first backslash that escapes nothing
                assert_eq!(pattern[position], b'\\');
                let next = pattern.get(position + 1);
                assert!(!matches!(next, Some(b'*') | Some(b'?') | Some(b'\\')));
                assert!(Wildcard::from_bytes(&pattern[..position]).is_ok());
            }
            Err(other) => panic!("{:?} for {:?}", other, pattern),
        }
    }
    assert!(globs > 300);
}

#[test]
fn patterns_and_their_domains() {
    let pattern = WildcardName::from_str("a*.example.com").unwrap();
    assert_eq!(pattern.name(), &name("example.com"));
    assert_eq!(pattern.rank(), 1);
    assert_eq!(pattern.clone().into_name(), name("example.com"));
    assert_eq!(WildcardName::from_name(name("example.com")), WildcardName::from_str("example.com").unwrap());
    assert_eq!(WildcardName::from_str("*"), None);
    assert_eq!(WildcardName::from_str("a*b"), None);
    assert_eq!(WildcardName::from_str("*.").unwrap(), WildcardName::Sub(Wildcard::default(), Name::root()));
    assert_eq!(WildcardName::from_str("+.").unwrap(), WildcardName::Suffix(Name::root()));
    assert_eq!(WildcardName::from_str("A?.Example.com").unwrap().to_bytes(), b"a?.example.com".to_vec());
    assert_eq!(Wildcard::default().to_bytes(), b"*".to_vec());
    assert!(WildcardName::from_str("*.").unwrap().is_match(&name("com")));
    assert!(!WildcardName::from_str("*.").unwrap().is_match(&Name::root()));
}

#[test]
fn the_empty_glob_reads_back() {
    let empty = Wildcard::default();
    assert_eq!(empty.to_bytes(), b"*".to_vec());
    assert_eq!(Wildcard::from_bytes(&empty.to_bytes()).unwrap(), empty);
    assert_eq!(Wildcard::from_str("*").unwrap(), empty);
    assert_eq!(Wildcard::from_str("").unwrap(), empty);
    assert_eq!(Wildcard::from_str("*").unwrap().pattern(), b"");
    assert_ne!(Wildcard::from_str("**").unwrap(), empty);
    assert_eq!(Wildcard::from_str("**").unwrap().to_bytes(), b"**".to_vec());
    // one pattern for one meaning
    let written = WildcardName::Sub(Wildcard::from_str("*").unwrap(), name("example.com"));
    assert_eq!(written, WildcardName::from_str("*.example.com").unwrap());
    assert_eq!(WildcardName::from_bytes(&written.to_bytes()), Some(written));
}

#[test]
fn patterns_read_back() {
    for text in ["example.com", "+.example.com", "-.example.com", "*.example.com", "a*b?.example.com", "."] {
        let pattern = WildcardName::from_str(text).unwrap();
        assert_eq!(pattern.to_bytes(), text.as_bytes().to_vec());
        assert_eq!(WildcardName::from_bytes(&pattern.to_bytes()), Some(pattern));
    }
}
