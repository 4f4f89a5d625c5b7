use dns_filter::handler::{handle_step, HandleAction, HandleEvent, HandleState};
use dns_filter::cache::{CacheKey, DnsCache};
use dns_filter::config::{
    def_block_mode, def_block_ttl, def_cache_size, def_dns_bind, def_log_level, def_log_size, def_true,
    def_upstream_timeout, def_upstreams, def_web_bind, BlockMode, Config,
};
use dns_filter::handler::{cache_ttl, plan_response, qtype_str, QueryAction, Response};
use dns_filter::matcher::MatchResult;
use dns_filter::upstream::Failover;

fn key(name: &str, qtype: u16) -> CacheKey {
    CacheKey { name: name.to_string(), qtype }
}

#[test]
fn cache_answers_until_expiry() {
    let mut c = DnsCache::new(10);
    c.insert_at(key("a.com", 1), vec![1, 2, 3], 60, 0);
    assert_eq!(c.len(), 1);
    assert_eq!(c.get_at(&key("a.com", 1), 59_999_999_999), Some(vec![1, 2, 3]));
    assert_eq!(c.get_at(&key("a.com", 28), 0), None);
    assert_eq!(c.get_at(&key("b.com", 1), 0), None);
    // at the expiry instant the entry is gone, and removed
    assert_eq!(c.get_at(&key("a.com", 1), 60_000_000_000), None);
    assert_eq!(c.len(), 0);
}

#[test]
fn cache_replaces_an_entry() {
    let mut c = DnsCache::new(10);
    c.insert_at(key("a.com", 1), vec![1], 60, 0);
    c.insert_at(key("a.com", 1), vec![2], 60, 0);
    assert_eq!(c.len(), 1);
    assert_eq!(c.get_at(&key("a.com", 1), 1), Some(vec![2]));
}

#[test]
fn full_cache_evicts_expired_entries_first() {
    let mut c = DnsCache::new(3);
    c.insert_at(key("old1", 1), vec![1], 1, 0);
    c.insert_at(key("old2", 1), vec![2], 1, 0);
    c.insert_at(key("live", 1), vec![3], 100, 0);
    assert_eq!(c.len(), 3);
    // at 2 s both old entries have expired; both are evicted
    c.insert_at(key("new", 1), vec![4], 100, 2_000_000_000);
    assert_eq!(c.len(), 2);
    assert_eq!(c.get_at(&key("live", 1), 2_000_000_000), Some(vec![3]));
    assert_eq!(c.get_at(&key("new", 1), 2_000_000_000), Some(vec![4]));
}

#[test]
fn full_cache_without_expired_entries_drops_one() {
    let mut c = DnsCache::new(2);
    c.insert_at(key("a", 1), vec![1], 100, 0);
    c.insert_at(key("b", 1), vec![2], 100, 0);
    c.insert_at(key("c", 1), vec![3], 100, 0);
    assert_eq!(c.len(), 2);
    assert_eq!(c.get_at(&key("c", 1), 0), Some(vec![3]));
}

#[test]
fn eviction_takes_at_most_ten_expired_entries() {
    let mut c = DnsCache::new(12);
    for i in 0..12u16 {
        c.insert_at(key("x", i), vec![], 1, 0);
    }
    assert_eq!(c.len(), 12);
    c.insert_at(key("y", 0), vec![9], 10, 5_000_000_000);
    assert_eq!(c.len(), 3);
}

#[test]
fn cache_of_size_zero_keeps_the_last_entry() {
    let mut c = DnsCache::new(0);
    c.insert_at(key("a", 1), vec![1], 100, 0);
    c.insert_at(key("b", 1), vec![2], 100, 0);
    assert_eq!(c.len(), 1);
    assert_eq!(c.get_at(&key("b", 1), 0), Some(vec![2]));
}

#[test]
fn cache_len_never_exceeds_its_size() {
    let mut c = DnsCache::new(4);
    for i in 0..50u16 {
        c.insert_at(key("k", i), vec![i as u8], 30, (i as u128) * 1_000_000_000);
        assert!(c.len() <= 4);
    }
}

#[test]
fn cache_with_the_clock() {
    let mut c = DnsCache::new(5);
    c.insert(key("now.com", 1), vec![7], 300);
    assert_eq!(c.get(&key("now.com", 1)), Some(vec![7]));
    c.insert(key("gone.com", 1), vec![8], 0);
    assert_eq!(c.get(&key("gone.com", 1)), None);
}

#[test]
fn block_modes_and_rewrites() {
    let (r, a) = plan_response(&MatchResult::Block, BlockMode::NxDomain, 3600);
    assert_eq!((r, a), (Response::NxDomain, QueryAction::Block));
    let (r, a) = plan_response(&MatchResult::Block, BlockMode::ZeroIp, 42);
    assert_eq!((r, a), (Response::ZeroIp { ttl: 42 }, QueryAction::Block));
    let (r, a) = plan_response(&MatchResult::Block, BlockMode::Refused, 1);
    assert_eq!((r, a), (Response::Refused, QueryAction::Block));
    let (r, a) = plan_response(&MatchResult::Rewrite("1.2.3.4".into()), BlockMode::NxDomain, 1);
    assert_eq!((r, a), (Response::Rewrite { target: "1.2.3.4".into(), ttl: 300 }, QueryAction::Rewrite));
    let (r, a) = plan_response(&MatchResult::Allow, BlockMode::NxDomain, 1);
    assert_eq!((r, a), (Response::Forward, QueryAction::Allow));
    let (r, a) = plan_response(&MatchResult::NoMatch, BlockMode::ZeroIp, 1);
    assert_eq!((r, a), (Response::Forward, QueryAction::Allow));
}

#[test]
fn cached_answer_ttl() {
    assert_eq!(cache_ttl(None), 60);
    assert_eq!(cache_ttl(Some(0)), 5);
    assert_eq!(cache_ttl(Some(4)), 5);
    assert_eq!(cache_ttl(Some(5)), 5);
    assert_eq!(cache_ttl(Some(3600)), 3600);
}

#[test]
fn query_type_names() {
    let cases = [(1, "A"), (28, "AAAA"), (5, "CNAME"), (15, "MX"), (16, "TXT"), (2, "NS"), (6, "SOA"), (255, "OTHER"), (0, "OTHER")];
    for (t, n) in cases {
        assert_eq!(qtype_str(t), n);
    }
}

#[test]
fn failover_order() {
    let f = Failover::new(3, true);
    assert_eq!(f.first(), Some(0));
    assert_eq!(f.after_failure(0), Some(1));
    assert_eq!(f.after_failure(1), Some(2));
    assert_eq!(f.after_failure(2), None);
    let g = Failover::new(3, false);
    assert_eq!(g.first(), Some(0));
    assert_eq!(g.after_failure(0), None);
    assert_eq!(Failover::new(0, true).first(), None);
}

#[test]
fn config_defaults() {
    assert_eq!(def_dns_bind(), "0.0.0.0:53");
    assert_eq!(def_web_bind(), "0.0.0.0:3000");
    assert_eq!(def_block_mode(), BlockMode::NxDomain);
    assert_eq!(def_log_size(), 10_000);
    assert_eq!(def_block_ttl(), 3600);
    assert_eq!(def_cache_size(), 50_000);
    assert_eq!(def_upstream_timeout(), 3000);
    assert_eq!(def_log_level(), "info");
    assert!(def_true());
    assert_eq!(def_upstreams(), vec!["8.8.8.8:53".to_string(), "8.8.4.4:53".to_string()]);
    let c = Config::default();
    assert_eq!(c.dns.bind, "0.0.0.0:53");
    assert_eq!(c.dns.cache_size, 50_000);
    assert_eq!(c.upstream.servers.len(), 2);
    assert!(c.upstream.failover);
    assert!(c.rulesets.is_empty());
    assert_eq!(c.web.bind, "0.0.0.0:3000");
    assert!(c.web.password.is_none());
    assert_eq!(c.log.level, "info");
}

#[test]
fn example_config_is_json() {
    let v: serde_json::Value = serde_json::from_str(Config::example()).unwrap();
    assert_eq!(v["dns"]["bind"], "0.0.0.0:53");
    assert_eq!(v["upstream"]["servers"][0], "8.8.8.8:53");
}

#[test]
fn full_cache_evicts_the_least_recently_used_entry() {
    let mut c = DnsCache::new(2);
    c.insert_at(key("a", 1), vec![1], 100, 0);
    c.insert_at(key("b", 1), vec![2], 100, 1);
    // a hit on "a" makes "b" the least recently used
    assert_eq!(c.get_at(&key("a", 1), 2), Some(vec![1]));
    c.insert_at(key("c", 1), vec![3], 100, 3);
    assert_eq!(c.len(), 2);
    assert_eq!(c.get_at(&key("b", 1), 4), None);
    assert_eq!(c.get_at(&key("a", 1), 4), Some(vec![1]));
    assert_eq!(c.get_at(&key("c", 1), 4), Some(vec![3]));
    // without the hit, the older insert goes
    let mut d = DnsCache::new(2);
    d.insert_at(key("a", 1), vec![1], 100, 0);
    d.insert_at(key("b", 1), vec![2], 100, 1);
    d.insert_at(key("c", 1), vec![3], 100, 3);
    assert_eq!(d.get_at(&key("a", 1), 4), None);
    assert_eq!(d.get_at(&key("b", 1), 4), Some(vec![2]));
}

#[test]
fn handling_order_of_a_query() {
    let m = BlockMode::NxDomain;
    assert_eq!(handle_step(HandleState::AwaitCache, &HandleEvent::CacheHit, m, 1), (HandleState::Done, HandleAction::SendCached));
    assert_eq!(handle_step(HandleState::AwaitCache, &HandleEvent::CacheMiss, m, 1), (HandleState::AwaitVerdict, HandleAction::MatchName));
    assert_eq!(
        handle_step(HandleState::AwaitVerdict, &HandleEvent::Verdict(MatchResult::Block), BlockMode::ZeroIp, 9),
        (HandleState::Done, HandleAction::Send(Response::ZeroIp { ttl: 9 }, QueryAction::Block))
    );
    assert_eq!(
        handle_step(HandleState::AwaitVerdict, &HandleEvent::Verdict(MatchResult::Rewrite("h".into())), m, 1),
        (HandleState::Done, HandleAction::Send(Response::Rewrite { target: "h".into(), ttl: 300 }, QueryAction::Rewrite))
    );
    assert_eq!(
        handle_step(HandleState::AwaitVerdict, &HandleEvent::Verdict(MatchResult::NoMatch), m, 1),
        (HandleState::AwaitUpstream, HandleAction::QueryUpstream)
    );
    assert_eq!(
        handle_step(HandleState::AwaitVerdict, &HandleEvent::Verdict(MatchResult::Allow), m, 1),
        (HandleState::AwaitUpstream, HandleAction::QueryUpstream)
    );
    assert_eq!(
        handle_step(HandleState::AwaitUpstream, &HandleEvent::UpstreamAnswer(Some(2)), m, 1),
        (HandleState::Done, HandleAction::SendUpstream { cache_ttl: 5 })
    );
    assert_eq!(
        handle_step(HandleState::AwaitUpstream, &HandleEvent::UpstreamAnswer(None), m, 1),
        (HandleState::Done, HandleAction::SendUpstream { cache_ttl: 60 })
    );
    assert_eq!(handle_step(HandleState::AwaitUpstream, &HandleEvent::UpstreamError, m, 1), (HandleState::Done, HandleAction::SendServFail));
    assert_eq!(handle_step(HandleState::Done, &HandleEvent::CacheHit, m, 1), (HandleState::Done, HandleAction::Ignore));
    assert_eq!(handle_step(HandleState::AwaitCache, &HandleEvent::UpstreamError, m, 1), (HandleState::AwaitCache, HandleAction::Ignore));
}
