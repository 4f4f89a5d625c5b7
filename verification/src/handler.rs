//! Decisions of the DNS query handler: how each verdict is answered, how
//! long an upstream answer is cached, and how query types are named.
use vstd::prelude::*;
use crate::config::BlockMode;
use crate::matcher::MatchResult;

verus! {

/// What a handled query was logged as.
#[derive(Debug, Clone, Copy, PartialEq, Eq, Structural)]
pub enum QueryAction {
    Allow,
    Block,
    Rewrite,
    Cache,
}

/// How a query (that missed the cache) is answered.
#[derive(Debug, Clone, PartialEq, Eq)]
pub enum Response {
    /// NXDOMAIN answer.
    NxDomain,
    /// An A answer of 0.0.0.0 with this TTL.
    ZeroIp { ttl: u32 },
    /// REFUSED answer.
    Refused,
    /// An answer rewritten to this target, with this TTL.
    Rewrite { target: String, ttl: u32 },
    /// Forward the query to the upstream servers.
    Forward,
}

/// TTL of a rewritten answer.
pub const REWRITE_TTL: u32 = 300;

/// `resp`, logged as `act`, is how a query whose name got `verdict` is
/// answered.
pub open spec fn answers_verdict(
    verdict: MatchResult,
    mode: BlockMode,
    block_ttl: u32,
    resp: Response,
    act: QueryAction,
) -> bool {
    match verdict {
        MatchResult::Block => act == QueryAction::Block && match mode {
            BlockMode::NxDomain => resp is NxDomain,
            BlockMode::ZeroIp => (resp matches Response::ZeroIp { ttl } && ttl == block_ttl),
            BlockMode::Refused => resp is Refused,
        },
        MatchResult::Rewrite(t) => act == QueryAction::Rewrite && (resp matches Response::Rewrite {
            target,
            ttl,
        } && target@ == t@ && ttl == 300),
        _ => act == QueryAction::Allow && resp is Forward,
    }
}

/// How a query is answered once its name has been matched. A blocked name
/// gets the answer of the configured block mode, where a zero-IP answer
/// carries the block TTL; a rewritten name gets its target with a 300 s TTL;
/// any other name goes to the upstream servers. The second part is what the
/// query is logged as.
pub fn plan_response(verdict: &MatchResult, mode: BlockMode, block_ttl: u32) -> (r: (Response, QueryAction))
    ensures
        answers_verdict(*verdict, mode, block_ttl, r.0, r.1),
{
    match verdict {
        MatchResult::Block => {
            let resp = match mode {
                BlockMode::NxDomain => Response::NxDomain,
                BlockMode::ZeroIp => Response::ZeroIp { ttl: block_ttl },
                BlockMode::Refused => Response::Refused,
            };
            (resp, QueryAction::Block)
        },
        MatchResult::Rewrite(target) => (
            Response::Rewrite { target: target.clone(), ttl: REWRITE_TTL },
            QueryAction::Rewrite,
        ),
        _ => (Response::Forward, QueryAction::Allow),
    }
}

/// How long an upstream answer whose smallest TTL is `min_ttl` is cached:
/// that TTL, 60 s when it has none, and never less than 5 s.
pub open spec fn ttl_for_cache(min_ttl: Option<u32>) -> u32 {
    match min_ttl {
        Some(x) => if x < 5 {
            5
        } else {
            x
        },
        None => 60,
    }
}

/// How long an upstream answer is cached: its smallest TTL, 60 s when it
/// has none, and never less than 5 s.
pub fn cache_ttl(min_ttl: Option<u32>) -> (t: u32)
    ensures
        t == ttl_for_cache(min_ttl),
{
    let t = match min_ttl {
        Some(x) => x,
        None => 60,
    };
    if t < 5 {
        5
    } else {
        t
    }
}

/// The name of a query type as logged.
pub open spec fn qtype_name(t: u16) -> Seq<char> {
    if t == 1 {
        "A"@
    } else if t == 28 {
        "AAAA"@
    } else if t == 5 {
        "CNAME"@
    } else if t == 15 {
        "MX"@
    } else if t == 16 {
        "TXT"@
    } else if t == 2 {
        "NS"@
    } else if t == 6 {
        "SOA"@
    } else {
        "OTHER"@
    }
}

/// The name of a query type as logged.
pub fn qtype_str(t: u16) -> (s: String)
    ensures
        s@ == qtype_name(t),
{
    let name = if t == 1 {
        "A"
    } else if t == 28 {
        "AAAA"
    } else if t == 5 {
        "CNAME"
    } else if t == 15 {
        "MX"
    } else if t == 16 {
        "TXT"
    } else if t == 2 {
        "NS"
    } else if t == 6 {
        "SOA"
    } else {
        "OTHER"
    };
    name.to_owned()
}

/// Where the handling of one query stands.
#[derive(Debug, Clone, Copy, PartialEq, Eq, Structural)]
pub enum HandleState {
    /// The cache has been asked for the name and query type.
    AwaitCache,
    /// The rule sets have been asked for the name.
    AwaitVerdict,
    /// The query has been sent to the upstream servers.
    AwaitUpstream,
    /// An answer has gone out.
    Done,
}

/// What the handler learns while it handles a query.
#[derive(Debug, Clone, PartialEq, Eq)]
pub enum HandleEvent {
    /// The cache holds an answer.
    CacheHit,
    /// The cache holds none.
    CacheMiss,
    /// The rule sets' verdict on the name.
    Verdict(MatchResult),
    /// An upstream server answered; the smallest TTL in its answer, if any.
    UpstreamAnswer(Option<u32>),
    /// No upstream server answered.
    UpstreamError,
}

/// What the handler does next.
#[derive(Debug, Clone, PartialEq, Eq)]
pub enum HandleAction {
    /// Send the cached answer and log the query as answered from the cache.
    SendCached,
    /// Ask the rule sets for the name.
    MatchName,
    /// Send this answer and log the query as this action.
    Send(Response, QueryAction),
    /// Send the query to the upstream servers.
    QueryUpstream,
    /// Send the upstream answer, cache it for this many seconds and log the
    /// query as allowed.
    SendUpstream { cache_ttl: u32 },
    /// Send SERVFAIL and log the query as allowed.
    SendServFail,
    /// The event does not belong to this state; nothing is done.
    Ignore,
}

/// One step of handling a query: the cache is asked first, and a hit is
/// answered from it; on a miss the name is matched and answered as
/// `plan_response` says, a name to forward goes to the upstream servers,
/// whose answer is sent and cached for `cache_ttl` of its smallest TTL, and
/// whose failure is answered with SERVFAIL.
pub fn handle_step(state: HandleState, event: &HandleEvent, mode: BlockMode, block_ttl: u32) -> (r: (
    HandleState,
    HandleAction,
))
    ensures
        match (state, *event) {
            (HandleState::AwaitCache, HandleEvent::CacheHit) => r == (
                HandleState::Done,
                HandleAction::SendCached,
            ),
            (HandleState::AwaitCache, HandleEvent::CacheMiss) => r == (
                HandleState::AwaitVerdict,
                HandleAction::MatchName,
            ),
            (HandleState::AwaitVerdict, HandleEvent::Verdict(v)) => match v {
                MatchResult::Allow | MatchResult::NoMatch => r == (
                    HandleState::AwaitUpstream,
                    HandleAction::QueryUpstream,
                ),
                _ => r.0 == HandleState::Done && (r.1 matches HandleAction::Send(resp, act)
                    && answers_verdict(v, mode, block_ttl, resp, act)),
            },
            (HandleState::AwaitUpstream, HandleEvent::UpstreamAnswer(min_ttl)) => r == (
                HandleState::Done,
                HandleAction::SendUpstream { cache_ttl: ttl_for_cache(min_ttl) },
            ),
            (HandleState::AwaitUpstream, HandleEvent::UpstreamError) => r == (
                HandleState::Done,
                HandleAction::SendServFail,
            ),
            _ => r == (state, HandleAction::Ignore),
        },
{
    match (state, event) {
        (HandleState::AwaitCache, HandleEvent::CacheHit) => (HandleState::Done, HandleAction::SendCached),
        (HandleState::AwaitCache, HandleEvent::CacheMiss) => (HandleState::AwaitVerdict, HandleAction::MatchName),
        (HandleState::AwaitVerdict, HandleEvent::Verdict(v)) => {
            let (resp, act) = plan_response(v, mode, block_ttl);
            match resp {
                Response::Forward => (HandleState::AwaitUpstream, HandleAction::QueryUpstream),
                _ => (HandleState::Done, HandleAction::Send(resp, act)),
            }
        },
        (HandleState::AwaitUpstream, HandleEvent::UpstreamAnswer(min_ttl)) => (
            HandleState::Done,
            HandleAction::SendUpstream { cache_ttl: cache_ttl(*min_ttl) },
        ),
        (HandleState::AwaitUpstream, HandleEvent::UpstreamError) => (HandleState::Done, HandleAction::SendServFail),
        _ => (state, HandleAction::Ignore),
    }
}

/// An upstream answer is cached for its own smallest TTL when that is at
/// least 5 s, for 5 s when it is shorter, and for 60 s when it has none; so
/// never for less than its TTL or 5 s, and never longer than both.
pub proof fn lemma_cache_ttl(x: u32)
    ensures
        x >= 5 ==> ttl_for_cache(Some(x)) == x,
        x < 5 ==> ttl_for_cache(Some(x)) == 5,
        ttl_for_cache(None) == 60,
        ttl_for_cache(Some(x)) >= x,
        ttl_for_cache(Some(x)) >= 5,
        ttl_for_cache(Some(x)) == x || ttl_for_cache(Some(x)) == 5,
{
}

/// Query types are logged by their DNS names: 1 "A", 28 "AAAA", 5 "CNAME",
/// 15 "MX", 16 "TXT", 2 "NS", 6 "SOA", and any other type "OTHER".
pub proof fn lemma_qtype_names(t: u16)
    ensures
        qtype_name(1) == "A"@,
        qtype_name(28) == "AAAA"@,
        qtype_name(5) == "CNAME"@,
        qtype_name(15) == "MX"@,
        qtype_name(16) == "TXT"@,
        qtype_name(2) == "NS"@,
        qtype_name(6) == "SOA"@,
        t != 1 && t != 28 && t != 5 && t != 15 && t != 16 && t != 2 && t != 6 ==> qtype_name(t)
            == "OTHER"@,
{
}

/// How each verdict is answered: a blocked name with NXDOMAIN, a zero-IP
/// answer carrying the block TTL, or REFUSED, as the block mode says; a
/// rewritten name with its target and a 300 s TTL; an allowed or unmatched
/// name is forwarded. Blocks and rewrites are logged as such, the rest as
/// allowed.
pub proof fn lemma_answers(mode: BlockMode, block_ttl: u32, t: String, resp: Response, act: QueryAction)
    ensures
        answers_verdict(MatchResult::Block, BlockMode::NxDomain, block_ttl, resp, act) ==> (resp
            is NxDomain && act == QueryAction::Block),
        answers_verdict(MatchResult::Block, BlockMode::ZeroIp, block_ttl, resp, act) ==> (resp
            matches Response::ZeroIp { ttl } && ttl == block_ttl),
        answers_verdict(MatchResult::Block, BlockMode::ZeroIp, block_ttl, resp, act) ==> (act
            == QueryAction::Block),
        answers_verdict(MatchResult::Block, BlockMode::Refused, block_ttl, resp, act) ==> (resp
            is Refused && act == QueryAction::Block),
        answers_verdict(MatchResult::Rewrite(t), mode, block_ttl, resp, act) ==> (resp
            matches Response::Rewrite { target, ttl } && target@ == t@ && ttl == 300u32),
        answers_verdict(MatchResult::Rewrite(t), mode, block_ttl, resp, act) ==> (act
            == QueryAction::Rewrite),
        answers_verdict(MatchResult::Allow, mode, block_ttl, resp, act) ==> (resp is Forward
            && act == QueryAction::Allow),
        answers_verdict(MatchResult::NoMatch, mode, block_ttl, resp, act) ==> (resp is Forward
            && act == QueryAction::Allow),
{
}

} // verus!
