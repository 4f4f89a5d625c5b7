use dns_filter::web::{not_found_text, toggle_enabled, INVALID_BODY, MISSING_DOMAIN, MISSING_RULE};
use dns_filter::web::{
    hex_val, parse_qs, parse_usize, query_limit, route, ruleset_name, url_decode, Endpoint, HttpMethod,
};

#[test]
fn hex_digits() {
    assert_eq!(hex_val(b'0'), Some(0));
    assert_eq!(hex_val(b'9'), Some(9));
    assert_eq!(hex_val(b'a'), Some(10));
    assert_eq!(hex_val(b'f'), Some(15));
    assert_eq!(hex_val(b'A'), Some(10));
    assert_eq!(hex_val(b'F'), Some(15));
    assert_eq!(hex_val(b'g'), None);
    assert_eq!(hex_val(b'/'), None);
    assert_eq!(hex_val(b':'), None);
}

#[test]
fn percent_decoding() {
    assert_eq!(url_decode("a%20b"), "a b");
    assert_eq!(url_decode("a+b"), "a b");
    assert_eq!(url_decode("%41%62"), "Ab");
    assert_eq!(url_decode("100%"), "100%");
    assert_eq!(url_decode("%4"), "%4");
    assert_eq!(url_decode("%zz"), "%zz");
    assert_eq!(url_decode("plain"), "plain");
    assert_eq!(url_decode(""), "");
}

#[test]
fn percent_escape_at_the_very_end_is_kept() {
    // two hex digits must follow the '%' and stand before the end
    assert_eq!(url_decode("x%41"), "xA");
    assert_eq!(url_decode("%41"), "A");
}

#[test]
fn decoded_bytes_become_latin1_chars() {
    assert_eq!(url_decode("%C3%A9"), "\u{c3}\u{a9}");
    // a non-ASCII character is decoded byte by byte
    assert_eq!(url_decode("é"), "\u{c3}\u{a9}");
}

#[test]
fn query_string_pairs() {
    let q = parse_qs("domain=ads.example.com&limit=5&flag&x=1=2");
    assert_eq!(q.get("domain"), Some("ads.example.com".to_string()));
    assert_eq!(q.get("limit"), Some("5".to_string()));
    assert_eq!(q.get("flag"), None);
    assert_eq!(q.get("x"), Some("1=2".to_string()));
    assert_eq!(q.pairs.len(), 3);
}

#[test]
fn query_string_later_value_wins() {
    let q = parse_qs("a=1&a=2&b=%20");
    assert_eq!(q.get("a"), Some("2".to_string()));
    assert_eq!(q.get("b"), Some(" ".to_string()));
    assert_eq!(q.get("c"), None);
}

#[test]
fn query_string_keys_are_decoded() {
    let q = parse_qs("my+key=v&%61=b&=empty");
    assert_eq!(q.get("my key"), Some("v".to_string()));
    assert_eq!(q.get("a"), Some("b".to_string()));
    assert_eq!(q.get(""), Some("empty".to_string()));
}

#[test]
fn empty_query_string() {
    assert_eq!(parse_qs("").pairs.len(), 0);
    assert_eq!(parse_qs("&&").pairs.len(), 0);
}

#[test]
fn usize_parsing() {
    assert_eq!(parse_usize("0"), Some(0));
    assert_eq!(parse_usize("42"), Some(42));
    assert_eq!(parse_usize("+7"), Some(7));
    assert_eq!(parse_usize("007"), Some(7));
    assert_eq!(parse_usize(""), None);
    assert_eq!(parse_usize("+"), None);
    assert_eq!(parse_usize("-1"), None);
    assert_eq!(parse_usize("1a"), None);
    assert_eq!(parse_usize(" 1"), None);
    assert_eq!(parse_usize("99999999999999999999999999"), None);
    assert_eq!(parse_usize(&usize::MAX.to_string()), Some(usize::MAX));
    for s in ["0", "5", "123", "18446744073709551616", "x"] {
        assert_eq!(parse_usize(s), s.parse::<usize>().ok(), "{}", s);
    }
}

#[test]
fn query_log_limit() {
    assert_eq!(query_limit(&parse_qs("")), 100);
    assert_eq!(query_limit(&parse_qs("limit=5")), 5);
    assert_eq!(query_limit(&parse_qs("limit=5000")), 1000);
    assert_eq!(query_limit(&parse_qs("limit=1000")), 1000);
    assert_eq!(query_limit(&parse_qs("limit=abc")), 100);
    assert_eq!(query_limit(&parse_qs("limit=-3")), 100);
    assert_eq!(query_limit(&parse_qs("limit=1&limit=20")), 20);
}

#[test]
fn toggle_path_name() {
    assert_eq!(ruleset_name("/api/rules/rulesets/ads/toggle"), "ads");
    assert_eq!(ruleset_name("/api/rules/rulesets/a%20b/toggle"), "a%20b");
    // repeated prefixes and suffixes are all trimmed
    assert_eq!(ruleset_name("/api/rules/rulesets//api/rules/rulesets/x/toggle/toggle"), "x");
    assert_eq!(ruleset_name("/api/rules/rulesets/toggle"), "toggle");
    assert_eq!(ruleset_name("other"), "other");
}

#[test]
fn routes_of_the_api() {
    let cases = [
        (HttpMethod::Get, "/api/stats", Endpoint::Stats),
        (HttpMethod::Get, "/api/queries?limit=3", Endpoint::Queries),
        (HttpMethod::Get, "/api/test?domain=a.b", Endpoint::TestDomain),
        (HttpMethod::Post, "/api/rules/reload", Endpoint::ReloadRules),
        (HttpMethod::Get, "/api/rules/rulesets", Endpoint::Rulesets),
        (HttpMethod::Put, "/api/rules/rulesets/ads/toggle", Endpoint::ToggleRuleset),
        (HttpMethod::Get, "/api/rules/custom", Endpoint::CustomRules),
        (HttpMethod::Post, "/api/rules/custom", Endpoint::AddCustomRule),
        (HttpMethod::Delete, "/api/rules/custom", Endpoint::RemoveCustomRule),
        (HttpMethod::Get, "/api/config", Endpoint::GetConfig),
        (HttpMethod::Put, "/api/config", Endpoint::UpdateConfig),
        (HttpMethod::Get, "/", Endpoint::Frontend),
        (HttpMethod::Get, "/index.html", Endpoint::Frontend),
        (HttpMethod::Get, "/assets/app.js", Endpoint::Asset),
        (HttpMethod::Options, "/anything", Endpoint::Preflight),
        (HttpMethod::Get, "/nope", Endpoint::NotFound),
        (HttpMethod::Post, "/api/stats", Endpoint::NotFound),
        (HttpMethod::Delete, "/api/config", Endpoint::NotFound),
        (HttpMethod::Put, "/api/rules/rulesets/ads", Endpoint::NotFound),
        (HttpMethod::Other, "/api/stats", Endpoint::NotFound),
        (HttpMethod::Get, "/api/stats/", Endpoint::NotFound),
    ];
    for (m, url, e) in cases {
        assert_eq!(route(m, url).endpoint, e, "{:?} {}", m, url);
    }
}

#[test]
fn route_splits_at_first_question_mark() {
    let r = route(HttpMethod::Get, "/api/test?domain=x.com&q=a?b");
    assert_eq!(r.path, "/api/test");
    assert_eq!(r.params.get("domain"), Some("x.com".to_string()));
    assert_eq!(r.params.get("q"), Some("a?b".to_string()));
    let r = route(HttpMethod::Get, "/api/stats");
    assert_eq!(r.path, "/api/stats");
    assert_eq!(r.params.pairs.len(), 0);
    let r = route(HttpMethod::Get, "/api/stats?");
    assert_eq!(r.endpoint, Endpoint::Stats);
    assert_eq!(r.params.pairs.len(), 0);
}

#[test]
fn request_error_texts() {
    assert_eq!(not_found_text("/nope"), "Not found: /nope");
    assert_eq!(not_found_text(""), "Not found: ");
    assert!(toggle_enabled(None));
    assert!(toggle_enabled(Some(true)));
    assert!(!toggle_enabled(Some(false)));
    assert_eq!(MISSING_DOMAIN, "missing ?domain=");
    assert_eq!(MISSING_RULE, "missing field: rule");
    assert_eq!(INVALID_BODY, "invalid JSON body");
}
