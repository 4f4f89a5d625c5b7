//! Rules: what a pattern matches and what happens to a matching domain.
use vstd::prelude::*;
use crate::text::to_lowercase;

verus! {

/// What action to take when a rule matches.
#[derive(Debug, Clone, PartialEq, Eq)]
pub enum RuleAction {
    /// Block the domain (respond with NXDOMAIN or 0.0.0.0).
    Block,
    /// Allow the domain (whitelist, overrides block rules).
    Allow,
    /// Rewrite to a specific IP or CNAME.
    Rewrite { target: String },
}

/// How the rule pattern matches.
#[derive(Debug, Clone, Copy, PartialEq, Eq, Structural)]
pub enum RuleType {
    /// Exact domain match: example.com
    DomainExact,
    /// Suffix match: matches example.com and *.example.com
    DomainSuffix,
    /// Keyword match: matches any domain containing the string
    DomainKeyword,
    /// Full regex match on the FQDN
    Regex,
    /// IPv4 CIDR (reserved)
    IpCidr4,
    /// IPv6 CIDR (reserved)
    IpCidr6,
}

/// A single parsed rule.
#[derive(Debug, Clone)]
pub struct Rule {
    pub action: RuleAction,
    pub rule_type: RuleType,
    /// The pattern string (domain, keyword, regex pattern, CIDR string).
    pub pattern: String,
    /// Optional source tag (which ruleset file this came from).
    pub source: Option<String>,
}

/// Two actions are the same: same variant, and the same target for rewrites.
pub open spec fn same_action(a: RuleAction, b: RuleAction) -> bool {
    match (a, b) {
        (RuleAction::Block, RuleAction::Block) => true,
        (RuleAction::Allow, RuleAction::Allow) => true,
        (RuleAction::Rewrite { target: t1 }, RuleAction::Rewrite { target: t2 }) => t1@ == t2@,
        _ => false,
    }
}

/// Decides `same_action`.
pub fn actions_equal(a: &RuleAction, b: &RuleAction) -> (r: bool)
    ensures
        r == same_action(*a, *b),
{
    match (a, b) {
        (RuleAction::Block, RuleAction::Block) => true,
        (RuleAction::Allow, RuleAction::Allow) => true,
        (RuleAction::Rewrite { target: t1 }, RuleAction::Rewrite { target: t2 }) => t1.eq(t2),
        _ => false,
    }
}

impl Rule {
    /// A rule with the given action and type whose pattern is `domain`
    /// lowercased, with no source tag.
    pub open spec fn normalized(self, action: RuleAction, rule_type: RuleType, domain: Seq<char>) -> bool {
        &&& self.action == action
        &&& self.rule_type == rule_type
        &&& self.pattern@ == crate::text::unicode_lowercase(domain)
        &&& self.source is None
    }

    pub fn block_suffix(domain: &str) -> (r: Self)
        ensures
            r.normalized(RuleAction::Block, RuleType::DomainSuffix, domain@),
    {
        Rule {
            action: RuleAction::Block,
            rule_type: RuleType::DomainSuffix,
            pattern: to_lowercase(domain),
            source: None,
        }
    }

    pub fn block_exact(domain: &str) -> (r: Self)
        ensures
            r.normalized(RuleAction::Block, RuleType::DomainExact, domain@),
    {
        Rule {
            action: RuleAction::Block,
            rule_type: RuleType::DomainExact,
            pattern: to_lowercase(domain),
            source: None,
        }
    }

    pub fn allow_suffix(domain: &str) -> (r: Self)
        ensures
            r.normalized(RuleAction::Allow, RuleType::DomainSuffix, domain@),
    {
        Rule {
            action: RuleAction::Allow,
            rule_type: RuleType::DomainSuffix,
            pattern: to_lowercase(domain),
            source: None,
        }
    }

    pub fn allow_exact(domain: &str) -> (r: Self)
        ensures
            r.normalized(RuleAction::Allow, RuleType::DomainExact, domain@),
    {
        Rule {
            action: RuleAction::Allow,
            rule_type: RuleType::DomainExact,
            pattern: to_lowercase(domain),
            source: None,
        }
    }
}

} // verus!
