//! Request decisions of the HTTP API: percent-decoding, query strings, the
//! `limit` parameter, and which endpoint a method and path reach.
use vstd::prelude::*;
use vstd::utf8::*;
use crate::text::{chars_of, string_from_chars};
use crate::labels::{split_on, no_sep, lemma_split_nonempty};

verus! {

/// The value of a hexadecimal digit byte, if it is one.
pub open spec fn hex_value(b: u8) -> Option<u8> {
    if 48 <= b <= 57 {
        Some((b - 48) as u8)
    } else if 97 <= b <= 102 {
        Some((b - 97 + 10) as u8)
    } else if 65 <= b <= 70 {
        Some((b - 65 + 10) as u8)
    } else {
        None
    }
}

/// The value of a hexadecimal digit (`0-9`, `a-f`, `A-F`), or `None`.
pub fn hex_val(b: u8) -> (r: Option<u8>)
    ensures
        r == hex_value(b),
{
    if b >= 48 && b <= 57 {
        Some(b - 48)
    } else if b >= 97 && b <= 102 {
        Some(b - 97 + 10)
    } else if b >= 65 && b <= 70 {
        Some(b - 65 + 10)
    } else {
        None
    }
}

/// `%` followed by two hexadecimal digits starts `b`.
pub open spec fn escape_at_start(b: Seq<u8>) -> bool {
    &&& b.len() > 2
    &&& b[0] == 37
    &&& hex_value(b[1]) is Some
    &&& hex_value(b[2]) is Some
}

/// Percent-decoding of bytes: `%XY` with two hex digits is the byte `0xXY`,
/// `+` is a space, any other byte stands for itself; each resulting byte
/// becomes the character with that code (0 to 255).
pub open spec fn url_decoded(b: Seq<u8>) -> Seq<char>
    decreases b.len(),
{
    if b.len() == 0 {
        Seq::<char>::empty()
    } else if escape_at_start(b) {
        let v = (hex_value(b[1])->0 * 16 + hex_value(b[2])->0) as u8;
        seq![v as char] + url_decoded(b.skip(3))
    } else if b[0] == 43 {
        seq![' '] + url_decoded(b.skip(1))
    } else {
        seq![b[0] as char] + url_decoded(b.skip(1))
    }
}

/// Percent-decodes the UTF-8 bytes of `s`.
pub fn url_decode(s: &str) -> (r: String)
    ensures
        r@ == url_decoded(encode_utf8(s@)),
{
    let bytes = s.as_bytes();
    let ghost b = bytes@;
    let mut out: Vec<char> = Vec::new();
    let mut i: usize = 0;
    assert(b.skip(0) =~= b);
    while i < bytes.len()
        invariant
            b == bytes@,
            b == encode_utf8(s@),
            i <= b.len(),
            out@ + url_decoded(b.skip(i as int)) == url_decoded(b),
        decreases b.len() - i,
    {
        let ghost rest = b.skip(i as int);
        let c = bytes[i];
        if c == 37 && bytes.len() - i > 2 {
            let h = hex_val(bytes[i + 1]);
            let l = hex_val(bytes[i + 2]);
            if let (Some(hv), Some(lv)) = (h, l) {
                let v: u8 = hv * 16 + lv;
                proof {
                    assert(escape_at_start(rest));
                    assert(rest.skip(3) =~= b.skip(i + 3));
                    assert(out@.push(v as char) + url_decoded(b.skip(i + 3)) =~= out@ + url_decoded(
                        rest,
                    ));
                }
                out.push(v as char);
                i = i + 3;
                continue;
            }
        }
        proof {
            assert(!escape_at_start(rest));
            assert(rest.skip(1) =~= b.skip(i + 1));
        }
        if c == 43 {
            proof {
                assert(out@.push(' ') + url_decoded(b.skip(i + 1)) =~= out@ + url_decoded(rest));
            }
            out.push(' ');
        } else {
            proof {
                assert(out@.push(c as char) + url_decoded(b.skip(i + 1)) =~= out@ + url_decoded(
                    rest,
                ));
            }
            out.push(c as char);
        }
        i = i + 1;
    }
    proof {
        assert(b.skip(i as int) =~= Seq::<u8>::empty());
        assert(out@ + url_decoded(b.skip(i as int)) =~= out@);
    }
    string_from_chars(out.as_slice())
}

/// Position of the first `c` in `s`, or the length of `s` if it holds none.
pub open spec fn first_at(s: Seq<char>, c: char) -> nat
    decreases s.len(),
{
    if s.len() == 0 {
        0
    } else if s[0] == c {
        0
    } else {
        1 + first_at(s.drop_first(), c)
    }
}

/// The first `c` in `s` is at `i` when none stands before `i` and `i` is
/// the end or holds `c`.
pub proof fn lemma_first_at(s: Seq<char>, c: char, i: int)
    requires
        0 <= i <= s.len(),
        no_sep(s.take(i), c),
        i == s.len() || s[i] == c,
    ensures
        first_at(s, c) == i,
    decreases i,
{
    if i > 0 {
        assert(s.take(i)[0] == s[0]);
        let t = s.drop_first();
        assert forall|j: int| 0 <= j < i - 1 implies #[trigger] t.take(i - 1)[j] != c by {
            assert(t.take(i - 1)[j] == s.take(i)[j + 1]);
        }
        lemma_first_at(t, c, i - 1);
    }
}

/// Finds the first `c` in `s`: its index, or the length of `s`.
pub fn find_char(s: &[char], c: char) -> (i: usize)
    ensures
        i == first_at(s@, c),
        i <= s@.len(),
{
    let mut i: usize = 0;
    while i < s.len()
        invariant
            i <= s@.len(),
            no_sep(s@.take(i as int), c),
        ensures
            i <= s@.len(),
            no_sep(s@.take(i as int), c),
            i == s@.len() || s@[i as int] == c,
        decreases s@.len() - i,
    {
        if s[i] == c {
            break;
        }
        proof {
            assert forall|j: int| 0 <= j < i + 1 implies #[trigger] s@.take(i + 1)[j] != c by {
                if j < i {
                    assert(s@.take(i + 1)[j] == s@.take(i as int)[j]);
                }
            }
        }
        i = i + 1;
    }
    proof {
        lemma_first_at(s@, c, i as int);
    }
    i
}

/// One `key=value` piece of a query string, split at its first `=` and
/// both sides percent-decoded; a piece without `=` gives nothing.
pub open spec fn key_value(p: Seq<char>) -> Option<(Seq<char>, Seq<char>)> {
    let e = first_at(p, '=');
    if e < p.len() {
        Some((url_decoded(encode_utf8(p.take(e as int))), url_decoded(encode_utf8(p.skip((e + 1) as int)))))
    } else {
        None
    }
}

/// The key/value pairs of query-string pieces, in order.
pub open spec fn pairs_of(pieces: Seq<Seq<char>>) -> Seq<(Seq<char>, Seq<char>)>
    decreases pieces.len(),
{
    if pieces.len() == 0 {
        Seq::empty()
    } else {
        let rest = pairs_of(pieces.drop_last());
        match key_value(pieces.last()) {
            Some(kv) => rest.push(kv),
            None => rest,
        }
    }
}

/// The pairs of a query string: its `&`-separated pieces that hold a `=`.
pub open spec fn query_pairs(q: Seq<char>) -> Seq<(Seq<char>, Seq<char>)> {
    pairs_of(split_on(q, '&'))
}

/// The value of the last pair with key `k`: a later pair for the same key
/// replaces an earlier one.
pub open spec fn lookup(ps: Seq<(Seq<char>, Seq<char>)>, k: Seq<char>) -> Option<Seq<char>>
    decreases ps.len(),
{
    if ps.len() == 0 {
        None
    } else if ps.last().0 == k {
        Some(ps.last().1)
    } else {
        lookup(ps.drop_last(), k)
    }
}

/// The parameters of a query string, as key/value pairs in the order they
/// came; `get` answers with the last value given for a key.
pub struct QueryParams {
    pub pairs: Vec<(String, String)>,
}

/// The texts of key/value string pairs.
pub open spec fn pair_texts(v: Seq<(String, String)>) -> Seq<(Seq<char>, Seq<char>)> {
    v.map_values(|p: (String, String)| (p.0@, p.1@))
}

impl View for QueryParams {
    type V = Seq<(Seq<char>, Seq<char>)>;

    open spec fn view(&self) -> Seq<(Seq<char>, Seq<char>)> {
        pair_texts(self.pairs@)
    }
}

impl QueryParams {
    /// The value given for `key`, the last one where it was given twice.
    pub fn get(&self, key: &str) -> (r: Option<String>)
        ensures
            match r {
                Some(v) => lookup(self@, key@) == Some(v@),
                None => lookup(self@, key@) is None,
            },
    {
        let k = key.to_owned();
        let mut i: usize = self.pairs.len();
        proof {
            assert(self@.take(i as int) =~= self@);
        }
        while i > 0
            invariant
                i <= self.pairs@.len(),
                k@ == key@,
                lookup(self@, key@) == lookup(self@.take(i as int), key@),
            decreases i,
        {
            let ghost t = self@.take(i as int);
            assert(t.last() == (self.pairs@[i - 1].0@, self.pairs@[i - 1].1@));
            if self.pairs[i - 1].0 == k {
                return Some(self.pairs[i - 1].1.clone());
            }
            assert(t.drop_last() =~= self@.take(i - 1));
            i = i - 1;
        }
        None
    }
}

/// Splits a query-string piece at its first `=` and decodes both sides.
fn split_pair(p: &[char]) -> (r: Option<(String, String)>)
    ensures
        match r {
            Some(kv) => key_value(p@) == Some((kv.0@, kv.1@)),
            None => key_value(p@) is None,
        },
{
    let e = find_char(p, '=');
    if e < p.len() {
        let ks = string_from_chars(&p[0..e]);
        let vs = string_from_chars(&p[e + 1..p.len()]);
        assert(p@.subrange(0, e as int) =~= p@.take(e as int));
        assert(p@.subrange(e + 1, p@.len() as int) =~= p@.skip(e + 1));
        let k = url_decode(ks.as_str());
        let v = url_decode(vs.as_str());
        Some((k, v))
    } else {
        None
    }
}

/// Parses a query string: each `&`-separated piece that holds a `=` gives a
/// key and a value, both percent-decoded.
pub fn parse_qs(qs: &str) -> (r: QueryParams)
    ensures
        r@ == query_pairs(qs@),
{
    let cs = chars_of(qs);
    let ghost sv = cs@;
    let mut out: Vec<(String, String)> = Vec::new();
    let mut cur: Vec<char> = Vec::new();
    let mut i: usize = 0;
    proof {
        assert(sv.take(0) =~= Seq::<char>::empty());
        assert(pair_texts(out@) =~= pairs_of(split_on(sv.take(0), '&').drop_last()));
    }
    while i < cs.len()
        invariant
            sv == cs@,
            i <= sv.len(),
            pair_texts(out@) == pairs_of(split_on(sv.take(i as int), '&').drop_last()),
            cur@ == split_on(sv.take(i as int), '&').last(),
        decreases sv.len() - i,
    {
        let ghost ps = split_on(sv.take(i as int), '&');
        proof {
            lemma_split_nonempty(sv.take(i as int), '&');
            assert(sv.take(i + 1).drop_last() =~= sv.take(i as int));
        }
        let c = cs[i];
        if c == '&' {
            let kv = split_pair(cur.as_slice());
            let ghost o0 = pair_texts(out@);
            proof {
                let ps2 = split_on(sv.take(i + 1), '&');
                assert(ps2 == ps.push(Seq::<char>::empty()));
                assert(ps2.drop_last() =~= ps);
                assert(ps.drop_last() =~= ps.drop_last());
            }
            match kv {
                Some(pair) => {
                    out.push(pair);
                    assert(pair_texts(out@) =~= o0.push((pair.0@, pair.1@)));
                },
                None => {},
            }
            cur = Vec::new();
        } else {
            cur.push(c);
            proof {
                let ps2 = split_on(sv.take(i + 1), '&');
                assert(ps2 == ps.update(ps.len() - 1, ps.last().push(c)));
                assert(ps2.drop_last() =~= ps.drop_last());
            }
        }
        i = i + 1;
    }
    proof {
        assert(sv.take(sv.len() as int) =~= sv);
        lemma_split_nonempty(sv, '&');
    }
    let kv = split_pair(cur.as_slice());
    let ghost o0 = pair_texts(out@);
    match kv {
        Some(pair) => {
            out.push(pair);
            assert(pair_texts(out@) =~= o0.push((pair.0@, pair.1@)));
        },
        None => {},
    }
    QueryParams { pairs: out }
}

/// A decimal digit character.
pub open spec fn is_digit(c: char) -> bool {
    '0' <= c && c <= '9'
}

/// Every character of `s` is a decimal digit.
pub open spec fn all_digits(s: Seq<char>) -> bool {
    forall|i: int| 0 <= i < s.len() ==> is_digit(#[trigger] s[i])
}

/// The number that a string of decimal digits writes.
pub open spec fn digits_value(s: Seq<char>) -> nat
    decreases s.len(),
{
    if s.len() == 0 {
        0
    } else {
        digits_value(s.drop_last()) * 10 + ((s.last() as int) - 48) as nat
    }
}

/// `s` without one leading `+`.
pub open spec fn unsigned_digits(s: Seq<char>) -> Seq<char> {
    if s.len() > 0 && s[0] == '+' {
        s.drop_first()
    } else {
        s
    }
}

/// What `str::parse::<usize>` gives: an optional `+` followed by at least one
/// decimal digit and nothing else, whose value fits in `usize`.
pub open spec fn parsed_usize(s: Seq<char>) -> Option<usize> {
    let d = unsigned_digits(s);
    if d.len() > 0 && all_digits(d) && digits_value(d) <= usize::MAX {
        Some(digits_value(d) as usize)
    } else {
        None
    }
}

/// A longer string of digits writes no smaller a number.
proof fn lemma_digits_grow(s: Seq<char>, j: int)
    requires
        0 <= j <= s.len(),
        all_digits(s),
    ensures
        digits_value(s.take(j)) <= digits_value(s),
    decreases s.len() - j,
{
    if j < s.len() {
        lemma_digits_grow(s, j + 1);
        assert(s.take(j + 1).drop_last() =~= s.take(j));
        assert(is_digit(s[j]));
    } else {
        assert(s.take(j) =~= s);
    }
}

/// Parses a decimal `usize` as `str::parse` does.
pub fn parse_usize(s: &str) -> (r: Option<usize>)
    ensures
        r == parsed_usize(s@),
{
    let cs = chars_of(s);
    let mut start: usize = 0;
    if cs.len() > 0 && cs[0] == '+' {
        start = 1;
    }
    let ghost d = unsigned_digits(s@);
    assert(d =~= cs@.skip(start as int));
    if start >= cs.len() {
        return None;
    }
    let mut v: usize = 0;
    let mut i: usize = start;
    assert(d.take(0) =~= Seq::<char>::empty());
    while i < cs.len()
        invariant
            start <= i <= cs@.len(),
            cs@ == s@,
            d == unsigned_digits(s@),
            d =~= cs@.skip(start as int),
            all_digits(d.take(i - start)),
            v == digits_value(d.take(i - start)),
        decreases cs@.len() - i,
    {
        let c = cs[i];
        let ghost k = i - start;
        assert(d[k] == c);
        if c < '0' || c > '9' {
            assert(!all_digits(d));
            return None;
        }
        let dig: usize = (c as u32 - 48) as usize;
        assert(d.take(k + 1).drop_last() =~= d.take(k));
        assert(d.take(k + 1).last() == c);
        match v.checked_mul(10) {
            Some(m) => match m.checked_add(dig) {
                Some(n) => {
                    v = n;
                },
                None => {
                    proof {
                        if all_digits(d) {
                            lemma_digits_grow(d, k + 1);
                        }
                    }
                    return None;
                },
            },
            None => {
                proof {
                    if all_digits(d) {
                        lemma_digits_grow(d, k + 1);
                    }
                }
                return None;
            },
        }
        i = i + 1;
        assert forall|j: int| 0 <= j < k + 1 implies is_digit(#[trigger] d.take(k + 1)[j]) by {
            if j < k {
                assert(d.take(k + 1)[j] == d.take(k)[j]);
            }
        }
    }
    assert(d.take(i - start) =~= d);
    Some(v)
}

/// The `limit` of a query-log request: the given number if it parses,
/// else 100, and never more than 1000.
pub open spec fn limit_from(v: Option<Seq<char>>) -> usize {
    let n: usize = match v {
        Some(t) => match parsed_usize(t) {
            Some(n) => n,
            None => 100,
        },
        None => 100,
    };
    if n < 1000 {
        n
    } else {
        1000
    }
}

/// The number of log entries a query-log request asks for.
pub fn query_limit(params: &QueryParams) -> (n: usize)
    ensures
        n == limit_from(lookup(params@, "limit"@)),
{
    let n: usize = match params.get("limit") {
        Some(t) => match parse_usize(t.as_str()) {
            Some(n) => n,
            None => 100,
        },
        None => 100,
    };
    if n < 1000 {
        n
    } else {
        1000
    }
}

/// The HTTP methods the API tells apart.
#[derive(Debug, Clone, Copy, PartialEq, Eq, Structural)]
pub enum HttpMethod {
    Get,
    Post,
    Put,
    Delete,
    Options,
    Other,
}

/// What a request is for.
#[derive(Debug, Clone, Copy, PartialEq, Eq, Structural)]
pub enum Endpoint {
    /// `GET /api/stats`: query statistics, engine metadata and cache size.
    Stats,
    /// `GET /api/queries`: the recent query log.
    Queries,
    /// `GET /api/test`: the verdict for the `domain` parameter.
    TestDomain,
    /// `POST /api/rules/reload`.
    ReloadRules,
    /// `GET /api/rules/rulesets`.
    Rulesets,
    /// `PUT /api/rules/rulesets/<name>/toggle`.
    ToggleRuleset,
    /// `GET /api/rules/custom`.
    CustomRules,
    /// `POST /api/rules/custom`.
    AddCustomRule,
    /// `DELETE /api/rules/custom`.
    RemoveCustomRule,
    /// `GET /api/config`.
    GetConfig,
    /// `PUT /api/config`.
    UpdateConfig,
    /// `GET /` or `GET /index.html`: the web front end.
    Frontend,
    /// `GET /assets/...`: answered with 404.
    Asset,
    /// Any `OPTIONS` request: the CORS preflight answer.
    Preflight,
    /// Anything else: a "Not found" error.
    NotFound,
}

/// `p` starts `s`.
pub open spec fn has_prefix(s: Seq<char>, p: Seq<char>) -> bool {
    p.len() <= s.len() && s.take(p.len() as int) == p
}

/// `p` ends `s`.
pub open spec fn has_suffix(s: Seq<char>, p: Seq<char>) -> bool {
    p.len() <= s.len() && s.skip(s.len() - p.len()) == p
}

/// The endpoint that a method and a path reach.
pub open spec fn endpoint_of(m: HttpMethod, p: Seq<char>) -> Endpoint {
    match m {
        HttpMethod::Get => {
            if p == "/api/stats"@ {
                Endpoint::Stats
            } else if p == "/api/queries"@ {
                Endpoint::Queries
            } else if p == "/api/test"@ {
                Endpoint::TestDomain
            } else if p == "/api/rules/rulesets"@ {
                Endpoint::Rulesets
            } else if p == "/api/rules/custom"@ {
                Endpoint::CustomRules
            } else if p == "/api/config"@ {
                Endpoint::GetConfig
            } else if p == "/"@ || p == "/index.html"@ {
                Endpoint::Frontend
            } else if has_prefix(p, "/assets/"@) {
                Endpoint::Asset
            } else {
                Endpoint::NotFound
            }
        },
        HttpMethod::Post => {
            if p == "/api/rules/reload"@ {
                Endpoint::ReloadRules
            } else if p == "/api/rules/custom"@ {
                Endpoint::AddCustomRule
            } else {
                Endpoint::NotFound
            }
        },
        HttpMethod::Put => {
            if has_prefix(p, "/api/rules/rulesets/"@) && has_suffix(p, "/toggle"@) {
                Endpoint::ToggleRuleset
            } else if p == "/api/config"@ {
                Endpoint::UpdateConfig
            } else {
                Endpoint::NotFound
            }
        },
        HttpMethod::Delete => {
            if p == "/api/rules/custom"@ {
                Endpoint::RemoveCustomRule
            } else {
                Endpoint::NotFound
            }
        },
        HttpMethod::Options => Endpoint::Preflight,
        HttpMethod::Other => Endpoint::NotFound,
    }
}

/// `lit` stands in `s` at `start`.
fn matches_at(s: &[char], start: usize, lit: &[char]) -> (r: bool)
    requires
        start <= s@.len(),
    ensures
        r == (lit@.len() <= s@.len() - start && s@.subrange(
            start as int,
            start + lit@.len(),
        ) == lit@),
{
    let n = s.len();
    if lit.len() > n - start {
        return false;
    }
    let mut j: usize = 0;
    while j < lit.len()
        invariant
            n == s@.len(),
            start + lit@.len() <= s@.len(),
            j <= lit@.len(),
            forall|k: int| 0 <= k < j ==> s@[start + k] == #[trigger] lit@[k],
        decreases lit@.len() - j,
    {
        let idx: usize = start + j;
        if s[idx] != lit[j] {
            assert(s@.subrange(start as int, start + lit@.len())[j as int] != lit@[j as int]);
            return false;
        }
        j = j + 1;
    }
    assert(s@.subrange(start as int, start + lit@.len()) =~= lit@);
    true
}

/// `s` is the text of `lit`.
fn is_text(s: &[char], lit: &str) -> (r: bool)
    ensures
        r == (s@ == lit@),
{
    let l = chars_of(lit);
    if l.len() != s.len() {
        return false;
    }
    let r = matches_at(s, 0, l.as_slice());
    assert(s@.subrange(0, s@.len() as int) =~= s@);
    r
}

/// `s` starts with the text of `lit`.
fn starts_with_text(s: &[char], lit: &str) -> (r: bool)
    ensures
        r == has_prefix(s@, lit@),
{
    let l = chars_of(lit);
    let r = matches_at(s, 0, l.as_slice());
    proof {
        if l@.len() <= s@.len() {
            assert(s@.subrange(0, l@.len() as int) =~= s@.take(l@.len() as int));
        }
    }
    r
}

/// `s` ends with the text of `lit`.
fn ends_with_text(s: &[char], lit: &str) -> (r: bool)
    ensures
        r == has_suffix(s@, lit@),
{
    let l = chars_of(lit);
    if l.len() > s.len() {
        return false;
    }
    let r = matches_at(s, s.len() - l.len(), l.as_slice());
    assert(s@.subrange(s@.len() - l@.len(), s@.len() as int) =~= s@.skip(s@.len() - l@.len()));
    r
}

/// The endpoint for a method and the characters of a path.
pub fn endpoint_for(m: HttpMethod, p: &[char]) -> (e: Endpoint)
    ensures
        e == endpoint_of(m, p@),
{
    match m {
        HttpMethod::Get => {
            if is_text(p, "/api/stats") {
                Endpoint::Stats
            } else if is_text(p, "/api/queries") {
                Endpoint::Queries
            } else if is_text(p, "/api/test") {
                Endpoint::TestDomain
            } else if is_text(p, "/api/rules/rulesets") {
                Endpoint::Rulesets
            } else if is_text(p, "/api/rules/custom") {
                Endpoint::CustomRules
            } else if is_text(p, "/api/config") {
                Endpoint::GetConfig
            } else if is_text(p, "/") || is_text(p, "/index.html") {
                Endpoint::Frontend
            } else if starts_with_text(p, "/assets/") {
                Endpoint::Asset
            } else {
                Endpoint::NotFound
            }
        },
        HttpMethod::Post => {
            if is_text(p, "/api/rules/reload") {
                Endpoint::ReloadRules
            } else if is_text(p, "/api/rules/custom") {
                Endpoint::AddCustomRule
            } else {
                Endpoint::NotFound
            }
        },
        HttpMethod::Put => {
            if starts_with_text(p, "/api/rules/rulesets/") && ends_with_text(p, "/toggle") {
                Endpoint::ToggleRuleset
            } else if is_text(p, "/api/config") {
                Endpoint::UpdateConfig
            } else {
                Endpoint::NotFound
            }
        },
        HttpMethod::Delete => {
            if is_text(p, "/api/rules/custom") {
                Endpoint::RemoveCustomRule
            } else {
                Endpoint::NotFound
            }
        },
        HttpMethod::Options => Endpoint::Preflight,
        HttpMethod::Other => Endpoint::NotFound,
    }
}

/// `s` with `p` removed from its start as many times as it stands there
/// (`str::trim_start_matches`).
pub open spec fn trim_prefixes(s: Seq<char>, p: Seq<char>) -> Seq<char>
    decreases s.len(),
{
    if p.len() > 0 && has_prefix(s, p) {
        trim_prefixes(s.skip(p.len() as int), p)
    } else {
        s
    }
}

/// `s` with `p` removed from its end as many times as it stands there
/// (`str::trim_end_matches`).
pub open spec fn trim_suffixes(s: Seq<char>, p: Seq<char>) -> Seq<char>
    decreases s.len(),
{
    if p.len() > 0 && has_suffix(s, p) {
        trim_suffixes(s.take(s.len() - p.len()), p)
    } else {
        s
    }
}

/// The ruleset named by a toggle path `/api/rules/rulesets/<name>/toggle`.
pub open spec fn toggle_name(path: Seq<char>) -> Seq<char> {
    trim_suffixes(trim_prefixes(path, "/api/rules/rulesets/"@), "/toggle"@)
}

/// The ruleset name in a toggle path: the path with the leading
/// `/api/rules/rulesets/` and the trailing `/toggle` trimmed.
pub fn ruleset_name(path: &str) -> (r: String)
    ensures
        r@ == toggle_name(path@),
{
    let cs = chars_of(path);
    let pre = chars_of("/api/rules/rulesets/");
    let suf = chars_of("/toggle");
    let ghost sv = cs@;
    let n = cs.len();
    let mut start: usize = 0;
    assert(sv.skip(0) =~= sv);
    if pre.len() > 0 {
        loop
            invariant
                sv == cs@,
                n == sv.len(),
                pre@ == "/api/rules/rulesets/"@,
                pre@.len() > 0,
                start <= sv.len(),
                trim_prefixes(sv, pre@) == trim_prefixes(sv.skip(start as int), pre@),
            ensures
                start <= sv.len(),
                trim_prefixes(sv, pre@) == sv.skip(start as int),
            decreases sv.len() - start,
        {
            let m = matches_at(cs.as_slice(), start, pre.as_slice());
            let ghost rest = sv.skip(start as int);
            proof {
                if pre@.len() <= rest.len() {
                    assert(sv.subrange(start as int, start + pre@.len()) =~= rest.take(
                        pre@.len() as int,
                    ));
                }
            }
            if !m {
                break;
            }
            assert(rest.skip(pre@.len() as int) =~= sv.skip(start + pre@.len()));
            start = start + pre.len();
        }
    }
    let ghost t = trim_prefixes(sv, pre@);
    assert(t == sv.skip(start as int));
    let mut end: usize = cs.len();
    assert(sv.subrange(start as int, end as int) =~= t);
    if suf.len() > 0 {
        loop
            invariant
                sv == cs@,
                suf@ == "/toggle"@,
                suf@.len() > 0,
                start <= end <= sv.len(),
                trim_suffixes(t, suf@) == trim_suffixes(sv.subrange(start as int, end as int), suf@),
            ensures
                start <= end <= sv.len(),
                trim_suffixes(t, suf@) == sv.subrange(start as int, end as int),
            decreases end,
        {
            let ghost cur = sv.subrange(start as int, end as int);
            if end - start < suf.len() {
                break;
            }
            let m = matches_at(cs.as_slice(), end - suf.len(), suf.as_slice());
            assert(sv.subrange(end - suf@.len(), end as int) =~= cur.skip(cur.len() - suf@.len()));
            if !m {
                break;
            }
            assert(cur.take(cur.len() - suf@.len()) =~= sv.subrange(
                start as int,
                end - suf@.len(),
            ));
            end = end - suf.len();
        }
    }
    let name = string_from_chars(&cs.as_slice()[start..end]);
    name
}

/// The path of a request target: everything before the first `?`.
pub open spec fn url_path(u: Seq<char>) -> Seq<char> {
    u.take(first_at(u, '?') as int)
}

/// The query string of a request target: everything after the first `?`,
/// empty where there is none.
pub open spec fn url_query(u: Seq<char>) -> Seq<char> {
    let i = first_at(u, '?');
    if i < u.len() {
        u.skip((i + 1) as int)
    } else {
        Seq::<char>::empty()
    }
}

/// A request as the API sees it: the endpoint, the path, and the query
/// parameters.
pub struct ApiRequest {
    pub endpoint: Endpoint,
    pub path: String,
    pub params: QueryParams,
}

/// Splits a request target at its first `?` into path and query string,
/// parses the query string, and picks the endpoint for the method and path.
pub fn route(method: HttpMethod, url: &str) -> (r: ApiRequest)
    ensures
        r.path@ == url_path(url@),
        r.params@ == query_pairs(url_query(url@)),
        r.endpoint == endpoint_of(method, url_path(url@)),
{
    let cs = chars_of(url);
    let q = find_char(cs.as_slice(), '?');
    let path_chars = &cs.as_slice()[0..q];
    assert(path_chars@ =~= url_path(url@));
    let endpoint = endpoint_for(method, path_chars);
    let path = string_from_chars(path_chars);
    let query = if q < cs.len() {
        let qc = &cs.as_slice()[q + 1..cs.len()];
        assert(qc@ =~= url_query(url@));
        string_from_chars(qc)
    } else {
        String::new()
    };
    let params = parse_qs(query.as_str());
    ApiRequest { endpoint, path, params }
}

/// The error text of a test request without a `domain` parameter.
pub const MISSING_DOMAIN: &'static str = "missing ?domain=";

/// The error text of a custom-rule request whose body names no rule.
pub const MISSING_RULE: &'static str = "missing field: rule";

/// The error text of a configuration update whose body is not JSON.
pub const INVALID_BODY: &'static str = "invalid JSON body";

/// The error text for a request that reaches no endpoint: "Not found: "
/// followed by its path.
pub fn not_found_text(path: &str) -> (r: String)
    ensures
        r@ == "Not found: "@ + path@,
{
    let mut v = chars_of("Not found: ");
    let p = chars_of(path);
    let ghost v0 = v@;
    let mut i: usize = 0;
    while i < p.len()
        invariant
            i <= p@.len(),
            v@ == v0 + p@.take(i as int),
        decreases p@.len() - i,
    {
        v.push(p[i]);
        i = i + 1;
        assert(v@ =~= v0 + p@.take(i as int));
    }
    assert(p@.take(i as int) =~= p@);
    string_from_chars(v.as_slice())
}

/// Whether a toggle request enables its rule set: the `enabled` flag of its
/// body, and enabled where the body gives none.
pub fn toggle_enabled(given: Option<bool>) -> (r: bool)
    ensures
        r == match given {
            Some(b) => b,
            None => true,
        },
{
    match given {
        Some(b) => b,
        None => true,
    }
}

/// Hexadecimal digits: '0' to '9' are 0 to 9, 'a' to 'f' and 'A' to 'F'
/// are 10 to 15, and no other byte is a digit.
pub proof fn lemma_hex_digits(b: u8)
    ensures
        48 <= b <= 57 ==> hex_value(b) == Some((b - 48) as u8),
        97 <= b <= 102 ==> hex_value(b) == Some((b - 87) as u8),
        65 <= b <= 70 ==> hex_value(b) == Some((b - 55) as u8),
        !(48 <= b <= 57 || 97 <= b <= 102 || 65 <= b <= 70) ==> hex_value(b) is None,
        hex_value(b) matches Some(v) ==> v < 16,
{
}

} // verus!
