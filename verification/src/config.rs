//! Daemon configuration and its defaults.
use vstd::prelude::*;
use crate::text::texts;

verus! {

#[derive(Debug, Clone)]
pub struct Config {
    pub dns: DnsConfig,
    pub upstream: UpstreamConfig,
    pub rulesets: Vec<RulesetConfig>,
    pub web: WebConfig,
    pub log: LogConfig,
}

#[derive(Debug, Clone)]
pub struct DnsConfig {
    pub bind: String,
    pub block_mode: BlockMode,
    pub query_log_size: usize,
    pub block_ttl: u32,
    pub cache_size: usize,
}

/// How blocked queries are answered.
#[derive(Debug, Clone, Copy, PartialEq, Eq, Structural)]
pub enum BlockMode {
    NxDomain,
    ZeroIp,
    Refused,
}

#[derive(Debug, Clone)]
pub struct UpstreamConfig {
    pub servers: Vec<String>,
    pub timeout_ms: u64,
    pub failover: bool,
}

#[derive(Debug, Clone)]
pub struct RulesetConfig {
    pub name: String,
    /// Path of the `.ars` file (as text).
    pub path: String,
    pub enabled: bool,
}

#[derive(Debug, Clone)]
pub struct WebConfig {
    pub bind: String,
    pub password: Option<String>,
}

#[derive(Debug, Clone)]
pub struct LogConfig {
    pub level: String,
}

pub fn def_dns_bind() -> (r: String)
    ensures
        r@ == "0.0.0.0:53"@,
{
    "0.0.0.0:53".to_owned()
}

pub fn def_web_bind() -> (r: String)
    ensures
        r@ == "0.0.0.0:3000"@,
{
    "0.0.0.0:3000".to_owned()
}

pub fn def_block_mode() -> (r: BlockMode)
    ensures
        r == BlockMode::NxDomain,
{
    BlockMode::NxDomain
}

pub fn def_log_size() -> (r: usize)
    ensures
        r == 10_000,
{
    10_000
}

pub fn def_block_ttl() -> (r: u32)
    ensures
        r == 3600,
{
    3600
}

pub fn def_cache_size() -> (r: usize)
    ensures
        r == 50_000,
{
    50_000
}

pub fn def_upstream_timeout() -> (r: u64)
    ensures
        r == 3000,
{
    3000
}

pub fn def_log_level() -> (r: String)
    ensures
        r@ == "info"@,
{
    "info".to_owned()
}

pub fn def_true() -> (r: bool)
    ensures
        r,
{
    true
}

pub fn def_upstreams() -> (r: Vec<String>)
    ensures
        texts(r@) == seq!["8.8.8.8:53"@, "8.8.4.4:53"@],
{
    let mut v: Vec<String> = Vec::new();
    v.push("8.8.8.8:53".to_owned());
    v.push("8.8.4.4:53".to_owned());
    assert(texts(v@) =~= seq!["8.8.8.8:53"@, "8.8.4.4:53"@]);
    v
}

impl DnsConfig {
    /// The default DNS settings.
    pub open spec fn is_default(&self) -> bool {
        &&& self.bind@ == "0.0.0.0:53"@
        &&& self.block_mode == BlockMode::NxDomain
        &&& self.query_log_size == 10_000
        &&& self.block_ttl == 3600
        &&& self.cache_size == 50_000
    }
}

impl UpstreamConfig {
    /// The default upstream settings.
    pub open spec fn is_default(&self) -> bool {
        &&& texts(self.servers@) == seq!["8.8.8.8:53"@, "8.8.4.4:53"@]
        &&& self.timeout_ms == 3000
        &&& self.failover
    }
}

impl WebConfig {
    /// The default web settings.
    pub open spec fn is_default(&self) -> bool {
        &&& self.bind@ == "0.0.0.0:3000"@
        &&& self.password is None
    }
}

impl LogConfig {
    /// The default log settings.
    pub open spec fn is_default(&self) -> bool {
        self.level@ == "info"@
    }
}

impl Default for Config {
    fn default() -> (c: Self)
        ensures
            c.dns.is_default(),
            c.upstream.is_default(),
            c.rulesets@.len() == 0,
            c.web.is_default(),
            c.log.is_default(),
    {
        Config {
            dns: DnsConfig {
                bind: def_dns_bind(),
                block_mode: def_block_mode(),
                query_log_size: def_log_size(),
                block_ttl: def_block_ttl(),
                cache_size: def_cache_size(),
            },
            upstream: UpstreamConfig {
                servers: def_upstreams(),
                timeout_ms: def_upstream_timeout(),
                failover: true,
            },
            rulesets: Vec::new(),
            web: WebConfig { bind: def_web_bind(), password: None },
            log: LogConfig { level: def_log_level() },
        }
    }
}

impl Default for DnsConfig {
    fn default() -> (c: Self)
        ensures
            c.is_default(),
    {
        let full: Config = Config::default();
        full.dns
    }
}

impl Default for UpstreamConfig {
    fn default() -> (c: Self)
        ensures
            c.is_default(),
    {
        let full: Config = Config::default();
        full.upstream
    }
}

impl Default for WebConfig {
    fn default() -> (c: Self)
        ensures
            c.is_default(),
    {
        let full: Config = Config::default();
        full.web
    }
}

impl Default for LogConfig {
    fn default() -> (c: Self)
        ensures
            c.is_default(),
    {
        let full: Config = Config::default();
        full.log
    }
}

/// The example configuration file (JSON): every section with its default
/// values and one enabled rule set.
pub const EXAMPLE_CONFIG: &'static str = "{\n  \"dns\": {\n    \"bind\": \"0.0.0.0:53\",\n    \"block_mode\": \"nxdomain\",\n    \"query_log_size\": 10000,\n    \"block_ttl\": 3600,\n    \"cache_size\": 50000\n  },\n  \"upstream\": {\n    \"servers\": [\"8.8.8.8:53\", \"8.8.4.4:53\"],\n    \"timeout_ms\": 3000,\n    \"failover\": true\n  },\n  \"rulesets\": [\n    {\n      \"name\": \"Default Blocklist\",\n      \"path\": \"/etc/dns-filter/rules/default.ars\",\n      \"enabled\": true\n    }\n  ],\n  \"web\": {\n    \"bind\": \"0.0.0.0:3000\"\n  },\n  \"log\": { \"level\": \"info\" }\n}\n";

impl Config {
    /// An example configuration file (JSON).
    pub fn example() -> (r: &'static str)
        ensures
            r@ == EXAMPLE_CONFIG@,
    {
        EXAMPLE_CONFIG
    }
}

} // verus!
