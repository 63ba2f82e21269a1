use smartdns::cache::{judge, negative_ttl, Cache, CacheKey, ServePolicy, Source, TtlPolicy, Verdict};
use smartdns::cache_file::{decode, encode, keep_fresh, load, FileEntry};
use smartdns::flight::{InFlight, Role};
use smartdns::name::Name;
use smartdns::pool::{intake, Admission, Intake, Pool, DEFAULT_MAX_CONNS};

fn key(text: &str, qtype: u16) -> CacheKey {
    CacheKey { name: Name::from_str(text).unwrap(), qtype, qclass: 1 }
}

const SERVE: ServePolicy = ServePolicy {
    serve_expired: true,
    serve_expired_ttl: 600,
    serve_expired_reply_ttl: 5,
    prefetch: true,
};

#[test]
fn times_to_live_are_held_within_their_limits() {
    let policy = TtlPolicy { rr_ttl_min: Some(60), rr_ttl_max: Some(3600), rr_ttl_reply_max: Some(30) };
    assert_eq!(policy.for_insert(10), 60);
    assert_eq!(policy.for_insert(600), 600);
    assert_eq!(policy.for_insert(86400), 3600);
    assert_eq!(policy.for_reply(600), 30);
    assert_eq!(policy.for_reply(7), 7);
    let crossed = TtlPolicy { rr_ttl_min: Some(600), rr_ttl_max: Some(60), rr_ttl_reply_max: None };
    assert_eq!(crossed.for_insert(300), 60);
    assert_eq!(crossed.for_reply(300), 300);
    let mut ttls = vec![5, 30, 31, 86400];
    policy.cap_reply(&mut ttls);
    assert_eq!(ttls, vec![5, 30, 30, 30]);
    assert_eq!(negative_ttl(900, &policy), 900);
    assert_eq!(negative_ttl(30, &policy), 60);
    assert_eq!(negative_ttl(86400, &policy), 3600);
    let ruled = policy.under_rule(None, Some(120), Some(10));
    assert_eq!(ruled, TtlPolicy { rr_ttl_min: Some(60), rr_ttl_max: Some(120), rr_ttl_reply_max: Some(10) });
}

#[test]
fn fresh_stale_and_expired() {
    assert_eq!(judge(1000, 300, 1000, &SERVE), Verdict::Fresh { ttl: 300, refresh: false });
    assert_eq!(judge(1000, 300, 1269, &SERVE), Verdict::Fresh { ttl: 31, refresh: false });
    assert_eq!(judge(1000, 300, 1270, &SERVE), Verdict::Fresh { ttl: 30, refresh: true });
    assert_eq!(judge(1000, 300, 1300, &SERVE), Verdict::Fresh { ttl: 0, refresh: true });
    assert_eq!(judge(1000, 300, 1301, &SERVE), Verdict::Stale { ttl: 5 });
    assert_eq!(judge(1000, 300, 1600, &SERVE), Verdict::Stale { ttl: 5 });
    assert_eq!(judge(1000, 300, 1601, &SERVE), Verdict::Expired);
    assert_eq!(judge(1000, 300, 900, &SERVE), Verdict::Fresh { ttl: 300, refresh: false });
    let strict = ServePolicy { serve_expired: false, prefetch: false, ..SERVE };
    assert_eq!(judge(1000, 300, 1301, &strict), Verdict::Expired);
    assert_eq!(judge(1000, 300, 1299, &strict), Verdict::Fresh { ttl: 1, refresh: false });
}

#[test]
fn a_stale_answer_is_served_with_a_short_time_to_live() {
    // example.com A=93.184.216.34 with a time to live of 300, asked for again after 301 seconds
    let mut cache: Cache<u32> = Cache::new(512);
    cache.insert(key("example.com", 1), 0x5DB8D822, 300, 0, Source::Upstream);
    let (verdict, at) = cache.lookup(&key("example.com", 1), 301, &SERVE);
    assert_eq!(verdict, Verdict::Stale { ttl: 5 });
    assert_eq!(cache.entry(at.unwrap()).value, 0x5DB8D822);
    assert_eq!(cache.entry(at.unwrap()).hit_count, 1);
}

#[test]
fn a_hit_is_the_last_insert() {
    let mut cache: Cache<&str> = Cache::new(4);
    cache.insert(key("example.com", 1), "first", 300, 100, Source::Upstream);
    cache.insert(key("example.com", 28), "six", 300, 100, Source::Upstream);
    cache.insert(key("example.com", 1), "second", 60, 200, Source::Static);
    assert_eq!(cache.len(), 2);
    let (verdict, at) = cache.lookup(&key("EXAMPLE.com", 1), 260, &SERVE);
    assert_eq!(verdict, Verdict::Fresh { ttl: 0, refresh: true });
    let entry = cache.entry(at.unwrap());
    assert_eq!((entry.value, entry.stored_at, entry.original_ttl, entry.source), ("second", 200, 60, Source::Static));
    let (verdict, at) = cache.lookup(&key("example.com", 28), 260, &SERVE);
    assert_eq!(verdict, Verdict::Fresh { ttl: 140, refresh: false });
    assert_eq!(cache.entry(at.unwrap()).value, "six");
    assert_eq!(cache.lookup(&key("example.org", 1), 260, &SERVE), (Verdict::Expired, None));
}

#[test]
fn the_entry_used_longest_ago_is_given_up() {
    let mut cache: Cache<u8> = Cache::new(2);
    cache.insert(key("a.test", 1), 1, 300, 0, Source::Upstream);
    cache.insert(key("b.test", 1), 2, 300, 0, Source::Upstream);
    // a hit makes an entry the one used most recently
    assert_eq!(cache.lookup(&key("a.test", 1), 10, &SERVE).1, Some(1));
    cache.insert(key("c.test", 1), 3, 300, 20, Source::Upstream);
    assert_eq!(cache.len(), 2);
    assert_eq!(cache.find(&key("b.test", 1)), None);
    assert_eq!(cache.find(&key("a.test", 1)), Some(0));
    assert_eq!(cache.find(&key("c.test", 1)), Some(1));
    assert_eq!(cache.touch(0), 1);
    assert_eq!(cache.entry(1).hit_count, 2);
    assert_eq!(cache.fresh_places(301), vec![0]);
    let mut none: Cache<u8> = Cache::new(0);
    none.insert(key("a.test", 1), 1, 300, 0, Source::Upstream);
    assert_eq!(none.len(), 0);
}

fn entry(k: &str, stored_at: u64, ttl: u32, msg: &[u8]) -> FileEntry {
    FileEntry { key: k.as_bytes().to_vec(), stored_at, ttl, msg: msg.to_vec() }
}

#[test]
fn the_cache_file_has_its_lengths_before_its_bytes() {
    let bytes = encode(&vec![entry("ab", 0x0102030405060708, 300, b"xyz")]).unwrap();
    assert_eq!(
        bytes,
        vec![
            0, 1, // version
            0, 0, 0, 1, // count
            0, 2, b'a', b'b', // key
            1, 2, 3, 4, 5, 6, 7, 8, // stored at
            0, 0, 1, 44, // time to live
            0, 0, 0, 3, b'x', b'y', b'z', // answer
        ]
    );
    assert_eq!(encode(&vec![]).unwrap(), vec![0, 1, 0, 0, 0, 0]);
    assert_eq!(encode(&vec![entry(&"k".repeat(65536), 0, 0, b"")]), None);
}

#[test]
fn what_is_saved_is_loaded_while_it_is_fresh() {
    let all = vec![
        entry("example.com/1/1", 1000, 300, b"answer one"),
        entry("example.org/28/1", 1100, 60, b""),
        entry("", 1200, 0, b"answer three"),
    ];
    let bytes = encode(&all).unwrap();
    assert_eq!(decode(&bytes), Some(all.clone()));
    assert_eq!(load(&bytes, 1160), all);
    assert_eq!(load(&bytes, 1200), vec![all[0].clone(), all[2].clone()]);
    assert_eq!(load(&bytes, 1201), vec![all[0].clone()]);
    assert_eq!(load(&bytes, 1301), Vec::<FileEntry>::new());
    assert_eq!(keep_fresh(all.clone(), 1161), vec![all[0].clone(), all[2].clone()]);
}

#[test]
fn a_file_that_cannot_be_read_holds_nothing() {
    let bytes = encode(&vec![entry("k", 1, 2, b"m")]).unwrap();
    let mut other_version = bytes.clone();
    other_version[1] = 2;
    assert_eq!(decode(&other_version), None);
    assert_eq!(load(&other_version, 1), Vec::<FileEntry>::new());
    assert_eq!(decode(&bytes[..bytes.len() - 1]), None);
    let mut longer = bytes.clone();
    longer.push(0);
    assert_eq!(decode(&longer), None);
    let mut more = bytes.clone();
    more[5] = 2;
    assert_eq!(decode(&more), None);
    assert_eq!(decode(b""), None);
    assert_eq!(decode(&[0, 1, 0, 0, 0]), None);
}

#[test]
fn one_asker_leads_and_the_others_follow() {
    let mut table = InFlight::new();
    let k = key("example.com", 1);
    assert_eq!(table.join(&k), Role::Leader);
    assert_eq!(table.join(&k), Role::Follower);
    assert_eq!(table.join(&key("Example.COM", 1)), Role::Follower);
    assert_eq!(table.join(&key("example.com", 28)), Role::Leader);
    assert!(table.contains(&k));
    table.finish(&k);
    assert!(!table.contains(&k));
    assert!(table.contains(&key("example.com", 28)));
    assert_eq!(table.join(&k), Role::Leader);
    table.finish(&key("nowhere.test", 1));
    assert_eq!(k.clone(), k);
}

#[test]
fn a_server_takes_so_many_exchanges_at_a_time() {
    let mut pool = Pool::new(Some(2), 1);
    assert_eq!(pool.acquire(), Admission::Granted);
    assert_eq!(pool.acquire(), Admission::Granted);
    assert_eq!(pool.acquire(), Admission::Queued);
    assert_eq!(pool.acquire(), Admission::Rejected);
    assert_eq!((pool.in_use, pool.waiting), (2, 1));
    // the one that waited starts in the place of the one that ended
    assert!(pool.release());
    assert_eq!((pool.in_use, pool.waiting), (2, 0));
    assert!(!pool.release());
    assert_eq!((pool.in_use, pool.waiting), (1, 0));
    assert_eq!(pool.acquire(), Admission::Granted);
    assert!(!pool.release());
    assert!(!pool.release());
    assert!(!pool.release());
    assert_eq!(pool, Pool::new(Some(2), 1));

    let mut datagrams = Pool::new(None, 0);
    for _ in 0..100 {
        assert_eq!(datagrams.acquire(), Admission::Granted);
    }
    assert_eq!(datagrams.in_use, 100);
    assert_eq!(DEFAULT_MAX_CONNS, 16);
    assert_eq!(intake(3, 4, false), Intake::Accept);
    assert_eq!(intake(4, 4, false), Intake::Drop);
    assert_eq!(intake(4, 4, true), Intake::Pause);
}
