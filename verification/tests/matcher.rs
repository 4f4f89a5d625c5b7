use dns_filter::builder::{resolve_metadata, ArsBuilder, RewriteEntry};
use dns_filter::format::Compression;
use dns_filter::matcher::{match_domain, MatchResult};
use dns_filter::reader::ArsReader;
use dns_filter::rule::{Rule, RuleAction, RuleType};
use dns_filter::scan::scan_sections;

fn engine_with_rewrites(rules: Vec<Rule>, rewrites: Vec<RewriteEntry>) -> ArsReader {
    let mut b = ArsBuilder::new().with_compression(Compression::Raw);
    b.add_rules(rules);
    let p = b.prepare();
    let meta = resolve_metadata(p.metadata.clone(), p.counts).unwrap();
    let data = b.encode(&p, b"{}", b"[]").unwrap();
    let scan = scan_sections(&data);
    assert!(scan.error.is_none());
    ArsReader::from_sections(scan.sections, Some(meta), rewrites).unwrap()
}

fn engine_from_rules(rules: Vec<Rule>) -> ArsReader {
    engine_with_rewrites(rules, Vec::new())
}

fn keyword(action: RuleAction, p: &str) -> Rule {
    Rule { action, rule_type: RuleType::DomainKeyword, pattern: p.into(), source: None }
}

fn regex(action: RuleAction, p: &str) -> Rule {
    Rule { action, rule_type: RuleType::Regex, pattern: p.into(), source: None }
}

fn rewrite(t: RuleType, p: &str, target: &str) -> RewriteEntry {
    RewriteEntry { pattern: p.into(), rule_type: t, target: target.into() }
}

#[test]
fn test_exact_block() {
    let r = engine_from_rules(vec![Rule::block_exact("ads.example.com")]);
    assert_eq!(match_domain(&r, "ads.example.com"), MatchResult::Block);
    assert_eq!(match_domain(&r, "example.com"), MatchResult::NoMatch);
}

#[test]
fn test_suffix_block_matches_subdomain() {
    let r = engine_from_rules(vec![Rule::block_suffix("example.com")]);
    assert_eq!(match_domain(&r, "sub.example.com"), MatchResult::Block);
    assert_eq!(match_domain(&r, "deep.sub.example.com"), MatchResult::Block);
    assert_eq!(match_domain(&r, "example.com"), MatchResult::Block);
    assert_eq!(match_domain(&r, "notexample.com"), MatchResult::NoMatch);
}

#[test]
fn test_whitelist_overrides_block() {
    let r = engine_from_rules(vec![
        Rule::block_suffix("example.com"),
        Rule::allow_exact("safe.example.com"),
    ]);
    assert_eq!(match_domain(&r, "safe.example.com"), MatchResult::Allow);
    assert_eq!(match_domain(&r, "ads.example.com"), MatchResult::Block);
}

#[test]
fn test_keyword_block() {
    let r = engine_from_rules(vec![keyword(RuleAction::Block, "tracker")]);
    assert_eq!(match_domain(&r, "tracker.example.com"), MatchResult::Block);
    assert_eq!(match_domain(&r, "my-tracker-ads.io"), MatchResult::Block);
    assert_eq!(match_domain(&r, "example.com"), MatchResult::NoMatch);
}

#[test]
fn test_case_insensitive_fqdn() {
    let r = engine_from_rules(vec![Rule::block_exact("ads.example.com")]);
    assert_eq!(match_domain(&r, "ADS.EXAMPLE.COM"), MatchResult::Block);
    assert_eq!(match_domain(&r, "Ads.Example.Com"), MatchResult::Block);
}

#[test]
fn test_trailing_dot_stripped() {
    let r = engine_from_rules(vec![Rule::block_exact("ads.example.com")]);
    assert_eq!(match_domain(&r, "ads.example.com."), MatchResult::Block);
}

#[test]
fn several_trailing_dots_are_stripped() {
    let r = engine_from_rules(vec![Rule::block_exact("ads.example.com")]);
    assert_eq!(match_domain(&r, "ads.example.com..."), MatchResult::Block);
}

#[test]
fn suffix_rule_matches_name_and_subdomains_only() {
    let r = engine_from_rules(vec![Rule::block_suffix("b.c")]);
    for d in ["b.c", "a.b.c", "x.y.b.c"] {
        assert_eq!(match_domain(&r, d), MatchResult::Block, "{}", d);
    }
    for d in ["ab.c", "b.cc", "c", "b.c.d"] {
        assert_eq!(match_domain(&r, d), MatchResult::NoMatch, "{}", d);
    }
}

#[test]
fn allow_suffix_keyword_and_regex_win() {
    let r = engine_from_rules(vec![
        Rule::block_suffix("com"),
        Rule::allow_suffix("good.com"),
        keyword(RuleAction::Allow, "friend"),
        regex(RuleAction::Allow, "^ok[0-9]+\\."),
    ]);
    assert_eq!(match_domain(&r, "x.good.com"), MatchResult::Allow);
    assert_eq!(match_domain(&r, "bestfriend.com"), MatchResult::Allow);
    assert_eq!(match_domain(&r, "ok42.com"), MatchResult::Allow);
    assert_eq!(match_domain(&r, "bad.com"), MatchResult::Block);
}

#[test]
fn keyword_match_ignores_ascii_case_of_pattern() {
    let r = engine_from_rules(vec![keyword(RuleAction::Block, "AdServer")]);
    assert_eq!(match_domain(&r, "x.adserver.net"), MatchResult::Block);
}

#[test]
fn regex_block() {
    let r = engine_from_rules(vec![regex(RuleAction::Block, "^ad[0-9]+\\.")]);
    assert_eq!(match_domain(&r, "ad7.example.org"), MatchResult::Block);
    assert_eq!(match_domain(&r, "add.example.org"), MatchResult::NoMatch);
}

#[test]
fn rewrite_exact_suffix_and_regex() {
    let r = engine_with_rewrites(
        vec![Rule::block_suffix("home.lan")],
        vec![
            rewrite(RuleType::DomainExact, "nas.home.lan", "10.0.0.2"),
            rewrite(RuleType::DomainSuffix, "home.lan", "10.0.0.1"),
            rewrite(RuleType::Regex, "^printer", "10.0.0.3"),
            rewrite(RuleType::DomainKeyword, "kw", "10.0.0.9"),
        ],
    );
    assert_eq!(match_domain(&r, "nas.home.lan"), MatchResult::Rewrite("10.0.0.2".into()));
    assert_eq!(match_domain(&r, "tv.home.lan"), MatchResult::Rewrite("10.0.0.1".into()));
    assert_eq!(match_domain(&r, "home.lan"), MatchResult::Rewrite("10.0.0.1".into()));
    assert_eq!(match_domain(&r, "printer.office"), MatchResult::Rewrite("10.0.0.3".into()));
    // keyword rewrites never match
    assert_eq!(match_domain(&r, "kw.office"), MatchResult::NoMatch);
    // "xhome.lan" is not under "home.lan"
    assert_eq!(match_domain(&r, "xhome.lan"), MatchResult::NoMatch);
}

#[test]
fn allow_beats_rewrite() {
    let r = engine_with_rewrites(
        vec![Rule::allow_exact("a.lan")],
        vec![rewrite(RuleType::DomainExact, "a.lan", "10.0.0.5")],
    );
    assert_eq!(match_domain(&r, "a.lan"), MatchResult::Allow);
}

#[test]
fn invalid_rewrite_regex_is_skipped() {
    let r = engine_with_rewrites(
        Vec::new(),
        vec![
            rewrite(RuleType::Regex, "(", "10.0.0.6"),
            rewrite(RuleType::Regex, "x", "10.0.0.7"),
        ],
    );
    assert_eq!(match_domain(&r, "x.y"), MatchResult::Rewrite("10.0.0.7".into()));
}

#[test]
fn empty_rule_set_matches_nothing() {
    let r = engine_from_rules(Vec::new());
    assert_eq!(match_domain(&r, "anything.example"), MatchResult::NoMatch);
    assert_eq!(match_domain(&r, ""), MatchResult::NoMatch);
}
