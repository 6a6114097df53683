//! The bot's configuration: its shape, its defaults, the placeholders of its
//! text form and the conditions under which it may be used.

use crate::text::{has_prefix, starts_with, to_chars, trimmed};
use crate::types::{dec_str_result, Address, DecimalError, U256};
use vstd::prelude::*;

verus! {

/// Whether opportunities are only reported or also executed.
#[derive(Clone, Copy, Debug, PartialEq, Eq, Structural)]
pub enum RunMode {
    /// Scan and report, never send a transaction.
    DryRun,
    /// Call the configured executor contract for each opportunity.
    Live,
}

impl Default for RunMode {
    /// Nothing is executed unless the configuration asks for it.
    fn default() -> (r: Self)
        ensures
            r == RunMode::DryRun,
    {
        RunMode::DryRun
    }
}

impl RunMode {
    /// Whether opportunities are executed.
    pub fn is_live(&self) -> (r: bool)
        ensures
            r == (*self is Live),
    {
        matches!(self, Self::Live)
    }
}

/// One amount of one token to try in every scan.
#[derive(Clone, Debug)]
pub struct TradeSize {
    /// The token that the route starts from and must come back to.
    pub token: Address,
    /// The amount in wei, in decimal notation.
    pub amount_wei: String,
}

/// What live execution needs.
#[derive(Clone, Debug)]
pub struct ExecutorConfig {
    /// The deployed executor contract.
    pub address: Address,
    /// The key that signs the transactions.
    pub private_key: String,
    /// How many seconds an execution stays valid.
    pub deadline_secs: u64,
}

/// Where alerts are sent.
#[derive(Clone, Debug)]
pub struct TelegramConfig {
    /// Whether alerts are sent at all.
    pub enabled: bool,
    /// The token of the sending bot.
    pub bot_token: String,
    /// The chat that receives the alerts.
    pub chat_id: String,
}

/// One pool that takes part in the comparison.
#[derive(Debug)]
pub enum PoolConfig {
    /// A constant-product pool, quoted from the reserves of its pair.
    V2 {
        name: String,
        pair: Address,
        router: Address,
        token0: Address,
        token1: Address,
        fee_bps: u32,
    },
    /// A concentrated-liquidity pool, quoted by a quoter contract.
    V3 {
        name: String,
        quoter: Address,
        router: Address,
        token0: Address,
        token1: Address,
        fee: u32,
    },
}

impl Clone for PoolConfig {
    fn clone(&self) -> (r: Self)
        ensures
            r == *self,
    {
        match self {
            PoolConfig::V2 { name, pair, router, token0, token1, fee_bps } => PoolConfig::V2 {
                name: name.clone(),
                pair: *pair,
                router: *router,
                token0: *token0,
                token1: *token1,
                fee_bps: *fee_bps,
            },
            PoolConfig::V3 { name, quoter, router, token0, token1, fee } => PoolConfig::V3 {
                name: name.clone(),
                quoter: *quoter,
                router: *router,
                token0: *token0,
                token1: *token1,
                fee: *fee,
            },
        }
    }
}

impl PoolConfig {
    /// The configured name of the pool.
    pub open spec fn spec_name(self) -> Seq<char> {
        match self {
            PoolConfig::V2 { name, .. } => name@,
            PoolConfig::V3 { name, .. } => name@,
        }
    }

    /// The router through which the pool is traded.
    pub open spec fn spec_router(self) -> Address {
        match self {
            PoolConfig::V2 { router, .. } => router,
            PoolConfig::V3 { router, .. } => router,
        }
    }

    /// The first token of the pool.
    pub open spec fn spec_token0(self) -> Address {
        match self {
            PoolConfig::V2 { token0, .. } => token0,
            PoolConfig::V3 { token0, .. } => token0,
        }
    }

    /// The second token of the pool.
    pub open spec fn spec_token1(self) -> Address {
        match self {
            PoolConfig::V2 { token1, .. } => token1,
            PoolConfig::V3 { token1, .. } => token1,
        }
    }

    /// Whether `token` is one of the two tokens of the pool.
    pub open spec fn spec_contains_token(self, token: Address) -> bool {
        self.spec_token0() == token || self.spec_token1() == token
    }

    /// The configured name of the pool.
    pub fn name(&self) -> (r: &str)
        ensures
            r@ == self.spec_name(),
    {
        match self {
            Self::V2 { name, .. } => name.as_str(),
            Self::V3 { name, .. } => name.as_str(),
        }
    }

    /// The router through which the pool is traded.
    pub fn router(&self) -> (r: Address)
        ensures
            r == self.spec_router(),
    {
        match self {
            Self::V2 { router, .. } | Self::V3 { router, .. } => *router,
        }
    }

    /// The first token of the pool.
    pub fn token0(&self) -> (r: Address)
        ensures
            r == self.spec_token0(),
    {
        match self {
            Self::V2 { token0, .. } | Self::V3 { token0, .. } => *token0,
        }
    }

    /// The second token of the pool.
    pub fn token1(&self) -> (r: Address)
        ensures
            r == self.spec_token1(),
    {
        match self {
            Self::V2 { token1, .. } | Self::V3 { token1, .. } => *token1,
        }
    }

    /// Whether `token` is one of the two tokens of the pool.
    pub fn contains_token(&self, token: Address) -> (r: bool)
        ensures
            r == self.spec_contains_token(token),
    {
        self.token0() == token || self.token1() == token
    }
}

/// The whole configuration.
#[derive(Clone, Debug)]
pub struct BotConfig {
    /// The RPC endpoint.
    pub rpc_url: String,
    /// The WebSocket endpoint for block subscriptions, where it is a separate one.
    pub ws_rpc_url: Option<String>,
    /// Seconds between two scans.
    pub poll_interval_secs: u64,
    /// Report only, or execute.
    pub run_mode: RunMode,
    /// The wrapped form of the native coin, in which gas is paid.
    pub native_wrapped_token: Option<Address>,
    /// The least profit worth reporting, in hundredths of a percent.
    pub min_profit_bps: u32,
    /// The gas that an execution is expected to use.
    pub gas_limit: u64,
    /// The gas price that profits are computed with, in gwei.
    pub max_gas_price_gwei: u64,
    /// Whether the outcome of every route is logged.
    pub debug_quotes: bool,
    /// The amounts to try.
    pub trade_sizes: Vec<TradeSize>,
    /// The pools to compare.
    pub pools: Vec<PoolConfig>,
    /// What live execution needs, where it is configured.
    pub executor: Option<ExecutorConfig>,
    /// Where alerts go, where they are configured.
    pub telegram: Option<TelegramConfig>,
}

/// What is wrong with a configuration.
pub enum ConfigFault {
    EmptyRpcUrl,
    NoTradeSizes,
    TooFewPools,
    LiveWithoutExecutor,
    InvalidAmount { value: Seq<char>, cause: DecimalError },
    IdenticalTokens { pool: Seq<char> },
    UnterminatedPlaceholder,
    EmptyPlaceholder,
    MissingVariable { name: Seq<char> },
    NotWebSocket,
}

impl ConfigFault {
    /// How the fault is explained to the operator.
    pub open spec fn text(self) -> Seq<char> {
        match self {
            ConfigFault::EmptyRpcUrl => "rpc_url cannot be empty"@,
            ConfigFault::NoTradeSizes => "configure at least one trade_sizes entry"@,
            ConfigFault::TooFewPools => "configure at least two pools"@,
            ConfigFault::LiveWithoutExecutor =>
            "live mode requires executor.address and executor.private_key"@,
            ConfigFault::InvalidAmount { value, cause } => "invalid decimal U256 "@ + value + ": "@
                + cause.spec_message(),
            ConfigFault::IdenticalTokens { pool } => "pool "@ + pool
                + " has identical token0/token1"@,
            ConfigFault::UnterminatedPlaceholder =>
            "unterminated environment variable placeholder in config"@,
            ConfigFault::EmptyPlaceholder => "empty environment variable placeholder in config"@,
            ConfigFault::MissingVariable { name } => "missing environment variable "@ + name,
            ConfigFault::NotWebSocket =>
            "watch-blocks requires ws_rpc_url or rpc_url to start with ws:// or wss://"@,
        }
    }
}

/// An error of the configuration.
#[derive(Debug)]
pub enum ConfigError {
    /// The RPC endpoint is blank.
    EmptyRpcUrl,
    /// There is no amount to try.
    NoTradeSizes,
    /// There are not two pools to compare.
    TooFewPools,
    /// Live mode is on, but nothing says how to execute.
    LiveWithoutExecutor,
    /// An amount is not a 256-bit decimal number.
    InvalidAmount { value: String, cause: DecimalError },
    /// Both tokens of a pool are the same.
    IdenticalTokens { pool: String },
    /// A placeholder is opened and never closed.
    UnterminatedPlaceholder,
    /// A placeholder names no variable.
    EmptyPlaceholder,
    /// A placeholder names a variable that is not set.
    MissingVariable { name: String },
    /// Blocks can only be watched over a WebSocket.
    NotWebSocket,
}

impl View for ConfigError {
    type V = ConfigFault;

    open spec fn view(&self) -> ConfigFault {
        match *self {
            ConfigError::EmptyRpcUrl => ConfigFault::EmptyRpcUrl,
            ConfigError::NoTradeSizes => ConfigFault::NoTradeSizes,
            ConfigError::TooFewPools => ConfigFault::TooFewPools,
            ConfigError::LiveWithoutExecutor => ConfigFault::LiveWithoutExecutor,
            ConfigError::InvalidAmount { value, cause } => ConfigFault::InvalidAmount {
                value: value@,
                cause,
            },
            ConfigError::IdenticalTokens { pool } => ConfigFault::IdenticalTokens { pool: pool@ },
            ConfigError::UnterminatedPlaceholder => ConfigFault::UnterminatedPlaceholder,
            ConfigError::EmptyPlaceholder => ConfigFault::EmptyPlaceholder,
            ConfigError::MissingVariable { name } => ConfigFault::MissingVariable { name: name@ },
            ConfigError::NotWebSocket => ConfigFault::NotWebSocket,
        }
    }
}

impl Clone for ConfigError {
    fn clone(&self) -> (r: Self)
        ensures
            r == *self,
    {
        match self {
            ConfigError::EmptyRpcUrl => ConfigError::EmptyRpcUrl,
            ConfigError::NoTradeSizes => ConfigError::NoTradeSizes,
            ConfigError::TooFewPools => ConfigError::TooFewPools,
            ConfigError::LiveWithoutExecutor => ConfigError::LiveWithoutExecutor,
            ConfigError::InvalidAmount { value, cause } => ConfigError::InvalidAmount {
                value: value.clone(),
                cause: *cause,
            },
            ConfigError::IdenticalTokens { pool } => ConfigError::IdenticalTokens {
                pool: pool.clone(),
            },
            ConfigError::UnterminatedPlaceholder => ConfigError::UnterminatedPlaceholder,
            ConfigError::EmptyPlaceholder => ConfigError::EmptyPlaceholder,
            ConfigError::MissingVariable { name } => ConfigError::MissingVariable {
                name: name.clone(),
            },
            ConfigError::NotWebSocket => ConfigError::NotWebSocket,
        }
    }
}

impl ConfigError {
    /// How the error is explained to the operator.
    pub fn message(&self) -> (r: String)
        ensures
            r@ == self@.text(),
    {
        let mut out = String::new();
        match self {
            ConfigError::EmptyRpcUrl => out.append("rpc_url cannot be empty"),
            ConfigError::NoTradeSizes => out.append("configure at least one trade_sizes entry"),
            ConfigError::TooFewPools => out.append("configure at least two pools"),
            ConfigError::LiveWithoutExecutor => out.append(
                "live mode requires executor.address and executor.private_key",
            ),
            ConfigError::InvalidAmount { value, cause } => {
                out.append("invalid decimal U256 ");
                out.append(value.as_str());
                out.append(": ");
                out.append(cause.message());
            },
            ConfigError::IdenticalTokens { pool } => {
                out.append("pool ");
                out.append(pool.as_str());
                out.append(" has identical token0/token1");
            },
            ConfigError::UnterminatedPlaceholder => out.append(
                "unterminated environment variable placeholder in config",
            ),
            ConfigError::EmptyPlaceholder => out.append(
                "empty environment variable placeholder in config",
            ),
            ConfigError::MissingVariable { name } => {
                out.append("missing environment variable ");
                out.append(name.as_str());
            },
            ConfigError::NotWebSocket => out.append(
                "watch-blocks requires ws_rpc_url or rpc_url to start with ws:// or wss://",
            ),
        }
        assert(out@ =~= self@.text());
        out
    }
}

/// The first amount of `trades`, from position `from` on, that is not a decimal
/// 256-bit number.
pub open spec fn bad_amount(trades: Seq<TradeSize>, from: int) -> Option<ConfigFault>
    decreases trades.len() - from,
{
    if from >= trades.len() {
        None
    } else {
        match dec_str_result(trades[from].amount_wei@) {
            Err(cause) => Some(
                ConfigFault::InvalidAmount { value: trades[from].amount_wei@, cause },
            ),
            Ok(_) => bad_amount(trades, from + 1),
        }
    }
}

/// The first pool of `pools`, from position `from` on, whose tokens are the same.
pub open spec fn bad_pool(pools: Seq<PoolConfig>, from: int) -> Option<ConfigFault>
    decreases pools.len() - from,
{
    if from >= pools.len() {
        None
    } else if pools[from].spec_token0() == pools[from].spec_token1() {
        Some(ConfigFault::IdenticalTokens { pool: pools[from].spec_name() })
    } else {
        bad_pool(pools, from + 1)
    }
}

impl BotConfig {
    /// The first reason not to use this configuration, if there is one.
    pub open spec fn fault(self) -> Option<ConfigFault> {
        if trimmed(self.rpc_url@).len() == 0 {
            Some(ConfigFault::EmptyRpcUrl)
        } else if self.trade_sizes@.len() == 0 {
            Some(ConfigFault::NoTradeSizes)
        } else if self.pools@.len() < 2 {
            Some(ConfigFault::TooFewPools)
        } else if self.run_mode is Live && self.executor is None {
            Some(ConfigFault::LiveWithoutExecutor)
        } else if bad_amount(self.trade_sizes@, 0) is Some {
            bad_amount(self.trade_sizes@, 0)
        } else {
            bad_pool(self.pools@, 0)
        }
    }

    /// The WebSocket endpoint without surrounding white space, unless it is blank.
    pub open spec fn spec_ws_rpc_url(self) -> Option<Seq<char>> {
        match self.ws_rpc_url {
            Some(url) => if trimmed(url@).len() == 0 {
                None
            } else {
                Some(trimmed(url@))
            },
            None => None,
        }
    }

    /// Accepts the configuration, or says what is wrong with it first.
    pub fn validate(&self) -> (r: Result<(), ConfigError>)
        ensures
            match self.fault() {
                None => r is Ok,
                Some(fault) => r matches Err(e) && e@ == fault,
            },
    {
        if self.rpc_url.as_str().trim().is_empty() {
            return Err(ConfigError::EmptyRpcUrl);
        }
        if self.trade_sizes.len() == 0 {
            return Err(ConfigError::NoTradeSizes);
        }
        if self.pools.len() < 2 {
            return Err(ConfigError::TooFewPools);
        }
        if self.run_mode.is_live() && self.executor.is_none() {
            return Err(ConfigError::LiveWithoutExecutor);
        }
        let mut i: usize = 0;
        while i < self.trade_sizes.len()
            invariant
                i <= self.trade_sizes.len(),
                bad_amount(self.trade_sizes@, 0) == bad_amount(self.trade_sizes@, i as int),
                self.fault() == if bad_amount(self.trade_sizes@, 0) is Some {
                    bad_amount(self.trade_sizes@, 0)
                } else {
                    bad_pool(self.pools@, 0)
                },
            decreases self.trade_sizes.len() - i,
        {
            match parse_u256_dec(self.trade_sizes[i].amount_wei.as_str()) {
                Ok(_) => {},
                Err(e) => {
                    return Err(e);
                },
            }
            i += 1;
        }
        let mut j: usize = 0;
        while j < self.pools.len()
            invariant
                j <= self.pools.len(),
                bad_pool(self.pools@, 0) == bad_pool(self.pools@, j as int),
                self.fault() == bad_pool(self.pools@, 0),
            decreases self.pools.len() - j,
        {
            let pool = &self.pools[j];
            if pool.token0() == pool.token1() {
                return Err(ConfigError::IdenticalTokens { pool: pool.name().to_owned() });
            }
            j += 1;
        }
        Ok(())
    }

    /// The WebSocket endpoint without surrounding white space, unless it is blank.
    pub fn ws_rpc_url(&self) -> (r: Option<&str>)
        ensures
            match self.spec_ws_rpc_url() {
                Some(url) => r matches Some(s) && s@ == url,
                None => r is None,
            },
    {
        match &self.ws_rpc_url {
            Some(url) => {
                let value = url.as_str().trim();
                if value.is_empty() {
                    None
                } else {
                    Some(value)
                }
            },
            None => None,
        }
    }
}

/// Reads a decimal 256-bit number.
pub fn parse_u256_dec(value: &str) -> (r: Result<U256, ConfigError>)
    ensures
        match dec_str_result(value@) {
            Ok(n) => r matches Ok(v) && v@ == n,
            Err(cause) => r matches Err(e) && e@ == (ConfigFault::InvalidAmount {
                value: value@,
                cause,
            }),
        },
{
    match U256::from_dec_str(value) {
        Ok(v) => Ok(v),
        Err(cause) => Err(ConfigError::InvalidAmount { value: value.to_owned(), cause }),
    }
}

/// Where the first `${` of `s` stands, from position `from` on.
pub open spec fn first_open(s: Seq<char>, from: int) -> Option<int>
    decreases s.len() - from,
{
    if from + 1 >= s.len() {
        None
    } else if s[from] == '$' && s[from + 1] == '{' {
        Some(from)
    } else {
        first_open(s, from + 1)
    }
}

/// Where the first `}` of `s` stands, from position `from` on.
pub open spec fn first_close(s: Seq<char>, from: int) -> Option<int>
    decreases s.len() - from,
{
    if from >= s.len() {
        None
    } else if s[from] == '}' {
        Some(from)
    } else {
        first_close(s, from + 1)
    }
}

/// The value of the first variable of `env`, from position `from` on, that is
/// called `name`.
pub open spec fn variable(env: Seq<(String, String)>, name: Seq<char>, from: int) -> Option<
    Seq<char>,
>
    decreases env.len() - from,
{
    if from >= env.len() {
        None
    } else if env[from].0@ == name {
        Some(env[from].1@)
    } else {
        variable(env, name, from + 1)
    }
}

/// What is found from a position on lies at or behind that position.
pub proof fn lemma_first_in_range(s: Seq<char>, from: int)
    ensures
        first_open(s, from) matches Some(i) ==> from <= i && i + 1 < s.len(),
        first_close(s, from) matches Some(i) ==> from <= i < s.len(),
    decreases s.len() - from,
{
    if from < s.len() {
        lemma_first_in_range(s, from + 1);
    }
}

/// The text `s` from position `from` on, with each placeholder `${NAME}`
/// replaced by the value of the variable `NAME`. The values are taken as they
/// are: a placeholder inside a value is not replaced again.
pub open spec fn expansion(s: Seq<char>, env: Seq<(String, String)>, from: int) -> Result<
    Seq<char>,
    ConfigFault,
>
    decreases s.len() - from,
{
    match first_open(s, from) {
        None => Ok(s.subrange(from, s.len() as int)),
        Some(start) => match first_close(s, start + 2) {
            None => Err(ConfigFault::UnterminatedPlaceholder),
            Some(end) => {
                let name = s.subrange(start + 2, end);
                if name.len() == 0 {
                    Err(ConfigFault::EmptyPlaceholder)
                } else {
                    match variable(env, name, 0) {
                        None => Err(ConfigFault::MissingVariable { name }),
                        Some(value) => {
                            proof {
                                lemma_first_in_range(s, from);
                                lemma_first_in_range(s, start + 2);
                            }
                            match expansion(s, env, end + 1) {
                                Err(fault) => Err(fault),
                                Ok(rest) => Ok(s.subrange(from, start) + value + rest),
                            }
                        },
                    }
                }
            },
        },
    }
}

/// Appends `s[from..to]` to `out`.
fn push_chars(out: &mut String, s: &Vec<char>, from: usize, to: usize)
    requires
        from <= to <= s.len(),
    ensures
        final(out)@ == old(out)@ + s@.subrange(from as int, to as int),
{
    let mut i = from;
    while i < to
        invariant
            from <= i <= to <= s.len(),
            out@ == old(out)@ + s@.subrange(from as int, i as int),
        decreases to - i,
    {
        out.push(s[i]);
        i += 1;
        assert(s@.subrange(from as int, i as int) =~= s@.subrange(from as int, i - 1).push(
            s@[i - 1],
        ));
    }
}

/// The value of the first variable of `env` that is called `name`.
fn find_variable<'a>(env: &'a Vec<(String, String)>, name: &String) -> (r: Option<&'a str>)
    ensures
        match variable(env@, name@, 0) {
            Some(value) => r matches Some(v) && v@ == value,
            None => r is None,
        },
{
    let mut i: usize = 0;
    while i < env.len()
        invariant
            i <= env.len(),
            variable(env@, name@, 0) == variable(env@, name@, i as int),
        decreases env.len() - i,
    {
        if env[i].0 == *name {
            return Some(env[i].1.as_str());
        }
        i += 1;
    }
    None
}

/// Replaces each placeholder `${NAME}` of `raw` by the value that `env`, the
/// variables of the environment, gives to `NAME`.
pub fn expand_env_vars(raw: &str, env: &Vec<(String, String)>) -> (r: Result<String, ConfigError>)
    ensures
        match expansion(raw@, env@, 0) {
            Ok(text) => r matches Ok(out) && out@ == text,
            Err(fault) => r matches Err(e) && e@ == fault,
        },
{
    let s = to_chars(raw);
    let mut out = String::new();
    let mut at: usize = 0;
    let mut i: usize = 0;
    proof {
        match expansion(raw@, env@, 0) {
            Ok(text) => {
                assert(Seq::<char>::empty() + text =~= text);
            },
            Err(_) => {},
        }
    }
    // `out` holds what precedes `at`; nothing opens between `at` and `i`.
    while s.len() - i >= 2
        invariant
            s@ == raw@,
            at <= i <= s.len(),
            first_open(s@, at as int) == first_open(s@, i as int),
            match expansion(raw@, env@, at as int) {
                Ok(text) => expansion(raw@, env@, 0) == Ok::<Seq<char>, ConfigFault>(out@ + text),
                Err(fault) => expansion(raw@, env@, 0) == Err::<Seq<char>, ConfigFault>(fault),
            },
        decreases s.len() - i,
    {
        if s[i] == '$' && s[i + 1] == '{' {
            let mut end: usize = i + 2;
            while end < s.len() && s[end] != '}'
                invariant
                    i + 2 <= end <= s.len(),
                    first_close(s@, i + 2) == first_close(s@, end as int),
                decreases s.len() - end,
            {
                end += 1;
            }
            if end == s.len() {
                return Err(ConfigError::UnterminatedPlaceholder);
            }
            let mut name = String::new();
            push_chars(&mut name, &s, i + 2, end);
            assert(name@ =~= s@.subrange(i + 2, end as int));
            if end == i + 2 {
                return Err(ConfigError::EmptyPlaceholder);
            }
            match find_variable(env, &name) {
                None => {
                    return Err(ConfigError::MissingVariable { name });
                },
                Some(value) => {
                    let ghost before = out@;
                    push_chars(&mut out, &s, at, i);
                    out.append(value);
                    proof {
                        match expansion(raw@, env@, end + 1) {
                            Ok(rest) => {
                                assert(before + (s@.subrange(at as int, i as int) + value@ + rest)
                                    =~= out@ + rest);
                            },
                            Err(_) => {},
                        }
                    }
                    at = end + 1;
                    i = end + 1;
                },
            }
        } else {
            i += 1;
        }
    }
    push_chars(&mut out, &s, at, s.len());
    Ok(out)
}

/// How an RPC endpoint is reached.
#[derive(Clone, Copy, Debug, PartialEq, Eq, Structural)]
pub enum Transport {
    /// Plain or encrypted HTTP.
    Http,
    /// Plain or encrypted WebSocket.
    WebSocket,
}

/// Whether `url` names a WebSocket endpoint.
pub open spec fn is_web_socket(url: Seq<char>) -> bool {
    has_prefix(url, "ws://"@) || has_prefix(url, "wss://"@)
}

/// How the endpoint `rpc_url` is reached: over a WebSocket where its scheme says
/// so, over HTTP otherwise.
pub fn transport(rpc_url: &str) -> (r: Transport)
    ensures
        r == if is_web_socket(rpc_url@) {
            Transport::WebSocket
        } else {
            Transport::Http
        },
{
    if starts_with(rpc_url, "ws://") || starts_with(rpc_url, "wss://") {
        Transport::WebSocket
    } else {
        Transport::Http
    }
}

impl BotConfig {
    /// The endpoint that block subscriptions would use.
    pub open spec fn subscription_url(self) -> Seq<char> {
        match self.spec_ws_rpc_url() {
            Some(url) => url,
            None => self.rpc_url@,
        }
    }

    /// The endpoint for block subscriptions: the WebSocket endpoint, or the RPC
    /// endpoint where there is none. It has to be a WebSocket.
    pub fn blocks_url(&self) -> (r: Result<&str, ConfigError>)
        ensures
            if is_web_socket(self.subscription_url()) {
                r matches Ok(url) && url@ == self.subscription_url()
            } else {
                r matches Err(e) && e@ == ConfigFault::NotWebSocket
            },
    {
        let url = match self.ws_rpc_url() {
            Some(url) => url,
            None => self.rpc_url.as_str(),
        };
        match transport(url) {
            Transport::WebSocket => Ok(url),
            Transport::Http => Err(ConfigError::NotWebSocket),
        }
    }
}

/// Seconds between two scans, unless configured.
pub fn default_poll_interval_secs() -> (r: u64)
    ensures
        r == 12,
{
    12
}

/// The least profit worth reporting, unless configured.
pub fn default_min_profit_bps() -> (r: u32)
    ensures
        r == 20,
{
    20
}

/// The gas that an execution is expected to use, unless configured.
pub fn default_gas_limit() -> (r: u64)
    ensures
        r == 350_000,
{
    350_000
}

/// The gas price in gwei that profits are computed with, unless configured.
pub fn default_max_gas_price_gwei() -> (r: u64)
    ensures
        r == 35,
{
    35
}

/// The fee of a constant-product pool, unless configured.
pub fn default_v2_fee_bps() -> (r: u32)
    ensures
        r == 30,
{
    30
}

/// How many seconds an execution stays valid, unless configured.
pub fn default_deadline_secs() -> (r: u64)
    ensures
        r == 60,
{
    60
}

/// A text without placeholders stays as it is.
pub proof fn law_expansion_keeps_plain_text(s: Seq<char>, env: Seq<(String, String)>)
    requires
        forall|i: int| 0 <= i && i + 1 < s.len() ==> !(#[trigger] s[i] == '$' && s[i + 1] == '{'),
    ensures
        expansion(s, env, 0) == Ok::<Seq<char>, ConfigFault>(s),
{
    lemma_nothing_opens(s, 0, s.len() as int);
    assert(first_open(s, s.len() as int) is None);
    assert(s.subrange(0, s.len() as int) =~= s);
}

/// The search for an opening passes over positions where nothing opens.
proof fn lemma_nothing_opens(s: Seq<char>, from: int, to: int)
    requires
        0 <= from <= to <= s.len(),
        forall|i: int|
            from <= i < to && i + 1 < s.len() ==> !(#[trigger] s[i] == '$' && s[i + 1] == '{'),
    ensures
        first_open(s, from) == first_open(s, to),
    decreases to - from,
{
    if from < to {
        lemma_nothing_opens(s, from + 1, to);
    }
}

/// The search for a closing passes over positions where nothing closes.
proof fn lemma_nothing_closes(s: Seq<char>, from: int, to: int)
    requires
        0 <= from <= to <= s.len(),
        forall|i: int| from <= i < to ==> #[trigger] s[i] != '}',
    ensures
        first_close(s, from) == first_close(s, to),
    decreases to - from,
{
    if from < to {
        lemma_nothing_closes(s, from + 1, to);
    }
}

/// Searching a text behind a prefix is searching the text alone.
proof fn lemma_search_behind_prefix(prefix: Seq<char>, s: Seq<char>, from: int)
    requires
        0 <= from <= s.len(),
    ensures
        first_open(prefix + s, prefix.len() + from) == match first_open(s, from) {
            Some(i) => Some(prefix.len() + i),
            None => None,
        },
        first_close(prefix + s, prefix.len() + from) == match first_close(s, from) {
            Some(i) => Some(prefix.len() + i),
            None => None,
        },
    decreases s.len() - from,
{
    let t = prefix + s;
    if from < s.len() {
        lemma_search_behind_prefix(prefix, s, from + 1);
        assert(t[prefix.len() + from] == s[from]);
        if from + 1 < s.len() {
            assert(t[prefix.len() + from + 1] == s[from + 1]);
        }
    }
}

/// Expanding a text behind a prefix is expanding the text alone.
proof fn lemma_expansion_behind_prefix(
    prefix: Seq<char>,
    s: Seq<char>,
    env: Seq<(String, String)>,
    from: int,
)
    requires
        0 <= from <= s.len(),
    ensures
        expansion(prefix + s, env, prefix.len() + from) == expansion(s, env, from),
    decreases s.len() - from,
{
    let t = prefix + s;
    let n = prefix.len();
    lemma_search_behind_prefix(prefix, s, from);
    lemma_first_in_range(s, from);
    match first_open(s, from) {
        None => {
            assert(t.subrange(n + from, t.len() as int) =~= s.subrange(from, s.len() as int));
        },
        Some(start) => {
            lemma_search_behind_prefix(prefix, s, start + 2);
            lemma_first_in_range(s, start + 2);
            match first_close(s, start + 2) {
                None => {},
                Some(end) => {
                    assert(t.subrange(n + start + 2, n + end) =~= s.subrange(start + 2, end));
                    assert(t.subrange(n + from, n + start) =~= s.subrange(from, start));
                    lemma_expansion_behind_prefix(prefix, s, env, end + 1);
                },
            }
        },
    }
}

/// A placeholder is replaced by the value of its variable: what stands before it
/// is kept, and what follows is expanded in the same way.
pub proof fn law_expansion_replaces_placeholder(
    before: Seq<char>,
    name: Seq<char>,
    after: Seq<char>,
    env: Seq<(String, String)>,
)
    requires
        forall|i: int|
            0 <= i && i + 1 < before.len() ==> !(#[trigger] before[i] == '$' && before[i + 1]
                == '{'),
        name.len() > 0,
        forall|i: int| 0 <= i < name.len() ==> #[trigger] name[i] != '}',
    ensures
        expansion(before + seq!['$', '{'] + name + seq!['}'] + after, env, 0) == match variable(
            env,
            name,
            0,
        ) {
            None => Err(ConfigFault::MissingVariable { name }),
            Some(value) => match expansion(after, env, 0) {
                Err(fault) => Err(fault),
                Ok(rest) => Ok(before + value + rest),
            },
        },
{
    let s = before + seq!['$', '{'] + name + seq!['}'] + after;
    let start = before.len() as int;
    let end = start + 2 + name.len();
    assert forall|i: int| 0 <= i < start && i + 1 < s.len() implies !(#[trigger] s[i] == '$'
        && s[i + 1] == '{') by {
        assert(s[i] == before[i]);
        if i + 1 < start {
            assert(s[i + 1] == before[i + 1]);
        } else {
            assert(s[i + 1] == '$');
        }
    }
    lemma_nothing_opens(s, 0, start);
    assert(s[start] == '$' && s[start + 1] == '{');
    assert(first_open(s, 0) == Some(start));
    assert forall|i: int| start + 2 <= i < end implies #[trigger] s[i] != '}' by {
        assert(s[i] == name[i - start - 2]);
    }
    lemma_nothing_closes(s, start + 2, end);
    assert(s[end] == '}');
    assert(first_close(s, start + 2) == Some(end));
    assert(s.subrange(start + 2, end) =~= name);
    assert(s.subrange(0, start) =~= before);
    let head = before + seq!['$', '{'] + name + seq!['}'];
    assert(s =~= head + after);
    lemma_expansion_behind_prefix(head, after, env, 0);
}

/// The first amount that cannot be read is missed by no search.
pub proof fn lemma_bad_amount(trades: Seq<TradeSize>, from: int)
    requires
        0 <= from,
    ensures
        bad_amount(trades, from) is None <==> forall|t: int|
            from <= t < trades.len() ==> dec_str_result((#[trigger] trades[t]).amount_wei@) is Ok,
    decreases trades.len() - from,
{
    if from < trades.len() {
        lemma_bad_amount(trades, from + 1);
        if dec_str_result(trades[from].amount_wei@) is Ok && bad_amount(trades, from + 1) is None {
            assert forall|t: int| from <= t < trades.len() implies dec_str_result(
                (#[trigger] trades[t]).amount_wei@,
            ) is Ok by {}
        }
    }
}

/// The first pool with identical tokens is missed by no search.
proof fn lemma_bad_pool(pools: Seq<PoolConfig>, from: int)
    requires
        0 <= from,
    ensures
        bad_pool(pools, from) is None <==> forall|p: int|
            from <= p < pools.len() ==> (#[trigger] pools[p]).spec_token0()
                != pools[p].spec_token1(),
    decreases pools.len() - from,
{
    if from < pools.len() {
        lemma_bad_pool(pools, from + 1);
        if pools[from].spec_token0() != pools[from].spec_token1() && bad_pool(pools, from + 1)
            is None {
            assert forall|p: int| from <= p < pools.len() implies (#[trigger] pools[p]).spec_token0()
                != pools[p].spec_token1() by {}
        }
    }
}

/// A configuration is accepted exactly where it names an endpoint, at least one
/// amount and at least two pools, every amount is a 256-bit decimal number, every
/// pool trades two different tokens, and live mode comes with an executor.
pub proof fn law_valid_configurations(cfg: BotConfig)
    ensures
        cfg.fault() is None <==> {
            &&& trimmed(cfg.rpc_url@).len() > 0
            &&& cfg.trade_sizes@.len() >= 1
            &&& cfg.pools@.len() >= 2
            &&& cfg.run_mode is Live ==> cfg.executor is Some
            &&& forall|t: int|
                0 <= t < cfg.trade_sizes@.len() ==> dec_str_result(
                    (#[trigger] cfg.trade_sizes@[t]).amount_wei@,
                ) is Ok
            &&& forall|p: int|
                0 <= p < cfg.pools@.len() ==> (#[trigger] cfg.pools@[p]).spec_token0()
                    != cfg.pools@[p].spec_token1()
        },
{
    lemma_bad_amount(cfg.trade_sizes@, 0);
    lemma_bad_pool(cfg.pools@, 0);
}

/// The parts of a pool are what its configuration says.
pub proof fn law_parts_of_a_pool(pool: PoolConfig, token: Address)
    ensures
        pool matches PoolConfig::V2 { name, router, token0, token1, .. } ==> pool.spec_name()
            == name@ && pool.spec_router() == router && pool.spec_token0() == token0
            && pool.spec_token1() == token1,
        pool matches PoolConfig::V3 { name, router, token0, token1, .. } ==> pool.spec_name()
            == name@ && pool.spec_router() == router && pool.spec_token0() == token0
            && pool.spec_token1() == token1,
        pool.spec_contains_token(token) <==> token == pool.spec_token0() || token
            == pool.spec_token1(),
{
}

/// The first amount that cannot be read is the one that is reported.
proof fn lemma_first_bad_amount(trades: Seq<TradeSize>, from: int, t: int)
    requires
        0 <= from <= t < trades.len(),
        dec_str_result(trades[t].amount_wei@) is Err,
        forall|u: int|
            from <= u < t ==> dec_str_result((#[trigger] trades[u]).amount_wei@) is Ok,
    ensures
        bad_amount(trades, from) == Some(
            ConfigFault::InvalidAmount {
                value: trades[t].amount_wei@,
                cause: dec_str_result(trades[t].amount_wei@)->Err_0,
            },
        ),
    decreases t - from,
{
    if from < t {
        assert(dec_str_result(trades[from].amount_wei@) is Ok);
        lemma_first_bad_amount(trades, from + 1, t);
    }
}

/// The first pool with identical tokens is the one that is reported.
proof fn lemma_first_bad_pool(pools: Seq<PoolConfig>, from: int, p: int)
    requires
        0 <= from <= p < pools.len(),
        pools[p].spec_token0() == pools[p].spec_token1(),
        forall|q: int|
            from <= q < p ==> (#[trigger] pools[q]).spec_token0() != pools[q].spec_token1(),
    ensures
        bad_pool(pools, from) == Some(ConfigFault::IdenticalTokens { pool: pools[p].spec_name() }),
    decreases p - from,
{
    if from < p {
        assert(pools[from].spec_token0() != pools[from].spec_token1());
        lemma_first_bad_pool(pools, from + 1, p);
    }
}

/// The first amount that cannot be read is reported, with its text and the reason,
/// and nothing is where every amount can be read.
pub proof fn law_first_unreadable_amount_is_reported(trades: Seq<TradeSize>, t: int)
    requires
        0 <= t < trades.len(),
        forall|u: int| 0 <= u < t ==> dec_str_result((#[trigger] trades[u]).amount_wei@) is Ok,
    ensures
        dec_str_result(trades[t].amount_wei@) matches Err(cause) ==> bad_amount(trades, 0) == Some(
            ConfigFault::InvalidAmount { value: trades[t].amount_wei@, cause },
        ),
        (forall|u: int|
            0 <= u < trades.len() ==> dec_str_result((#[trigger] trades[u]).amount_wei@) is Ok)
            <==> bad_amount(trades, 0) is None,
{
    lemma_bad_amount(trades, 0);
    if dec_str_result(trades[t].amount_wei@) is Err {
        lemma_first_bad_amount(trades, 0, t);
    }
}

/// The faults are looked for in this order, and the first one is reported: a blank
/// endpoint, no amounts, fewer than two pools, live mode without an executor, the
/// first amount that cannot be read, the first pool with identical tokens.
pub proof fn law_first_fault_is_reported(cfg: BotConfig)
    ensures
        ({
            let trades = cfg.trade_sizes@;
            let pools = cfg.pools@;
            let blank = trimmed(cfg.rpc_url@).len() == 0;
            let enough = !blank && trades.len() > 0 && pools.len() >= 2 && (cfg.run_mode is Live
                ==> cfg.executor is Some);
            &&& blank ==> cfg.fault() == Some(ConfigFault::EmptyRpcUrl)
            &&& !blank && trades.len() == 0 ==> cfg.fault() == Some(ConfigFault::NoTradeSizes)
            &&& !blank && trades.len() > 0 && pools.len() < 2 ==> cfg.fault() == Some(
                ConfigFault::TooFewPools,
            )
            &&& !blank && trades.len() > 0 && pools.len() >= 2 && cfg.run_mode is Live
                && cfg.executor is None ==> cfg.fault() == Some(ConfigFault::LiveWithoutExecutor)
            &&& forall|t: int|
                enough && 0 <= t < trades.len() && dec_str_result(
                    (#[trigger] trades[t]).amount_wei@,
                ) is Err && (forall|u: int|
                    0 <= u < t ==> dec_str_result((#[trigger] trades[u]).amount_wei@) is Ok)
                    ==> cfg.fault() == Some(
                    ConfigFault::InvalidAmount {
                        value: trades[t].amount_wei@,
                        cause: dec_str_result(trades[t].amount_wei@)->Err_0,
                    },
                )
            &&& forall|p: int|
                enough && (forall|u: int|
                    0 <= u < trades.len() ==> dec_str_result((#[trigger] trades[u]).amount_wei@)
                        is Ok) && 0 <= p < pools.len() && (#[trigger] pools[p]).spec_token0()
                    == pools[p].spec_token1() && (forall|q: int|
                    0 <= q < p ==> (#[trigger] pools[q]).spec_token0() != pools[q].spec_token1())
                    ==> cfg.fault() == Some(
                    ConfigFault::IdenticalTokens { pool: pools[p].spec_name() },
                )
        }),
{
    let trades = cfg.trade_sizes@;
    let pools = cfg.pools@;
    lemma_bad_amount(trades, 0);
    assert forall|t: int|
        0 <= t < trades.len() && dec_str_result((#[trigger] trades[t]).amount_wei@) is Err && (
        forall|u: int|
            0 <= u < t ==> dec_str_result((#[trigger] trades[u]).amount_wei@) is Ok) implies
        bad_amount(trades, 0) == Some(
        ConfigFault::InvalidAmount {
            value: trades[t].amount_wei@,
            cause: dec_str_result(trades[t].amount_wei@)->Err_0,
        },
    ) by {
        lemma_first_bad_amount(trades, 0, t);
    }
    assert forall|p: int|
        0 <= p < pools.len() && (#[trigger] pools[p]).spec_token0() == pools[p].spec_token1() && (
        forall|q: int|
            0 <= q < p ==> (#[trigger] pools[q]).spec_token0() != pools[q].spec_token1()) implies
        bad_pool(pools, 0) == Some(
        ConfigFault::IdenticalTokens { pool: pools[p].spec_name() },
    ) by {
        lemma_first_bad_pool(pools, 0, p);
    }
}

/// An error that speaks of an input quotes it in full, and errors are told apart by
/// what they speak of.
pub proof fn law_errors_quote_their_inputs(error: ConfigError)
    ensures
        error matches ConfigError::InvalidAmount { value, cause } ==> error@ == (
        ConfigFault::InvalidAmount { value: value@, cause }) && error@.text()
            == "invalid decimal U256 "@ + value@ + ": "@ + cause.spec_message(),
        error matches ConfigError::IdenticalTokens { pool } ==> error@ == (
        ConfigFault::IdenticalTokens { pool: pool@ }) && error@.text() == "pool "@ + pool@
            + " has identical token0/token1"@,
        error matches ConfigError::MissingVariable { name } ==> error@ == (
        ConfigFault::MissingVariable { name: name@ }) && error@.text()
            == "missing environment variable "@ + name@,
        error is EmptyRpcUrl <==> error@ is EmptyRpcUrl,
        error is NoTradeSizes <==> error@ is NoTradeSizes,
        error is TooFewPools <==> error@ is TooFewPools,
        error is LiveWithoutExecutor <==> error@ is LiveWithoutExecutor,
        error is InvalidAmount <==> error@ is InvalidAmount,
        error is IdenticalTokens <==> error@ is IdenticalTokens,
        error is UnterminatedPlaceholder <==> error@ is UnterminatedPlaceholder,
        error is EmptyPlaceholder <==> error@ is EmptyPlaceholder,
        error is MissingVariable <==> error@ is MissingVariable,
        error is NotWebSocket <==> error@ is NotWebSocket,
{
}

/// The first variable with a name decides its value: what stands before it has other
/// names, and what stands behind it does not count.
pub proof fn law_first_variable_counts(env: Seq<(String, String)>, name: Seq<char>)
    ensures
        forall|i: int|
            0 <= i < env.len() && (#[trigger] env[i]).0@ == name && (forall|j: int|
                0 <= j < i ==> (#[trigger] env[j]).0@ != name) ==> variable(env, name, 0) == Some(
                env[i].1@,
            ),
        (forall|j: int| 0 <= j < env.len() ==> (#[trigger] env[j]).0@ != name) <==> variable(
            env,
            name,
            0,
        ) is None,
{
    lemma_variable_missing(env, name, 0);
    assert forall|i: int|
        0 <= i < env.len() && (#[trigger] env[i]).0@ == name && (forall|j: int|
            0 <= j < i ==> (#[trigger] env[j]).0@ != name) implies variable(env, name, 0) == Some(
        env[i].1@,
    ) by {
        lemma_first_variable(env, name, 0, i);
    }
}

/// The search finds the first variable with a name.
proof fn lemma_first_variable(env: Seq<(String, String)>, name: Seq<char>, from: int, i: int)
    requires
        0 <= from <= i < env.len(),
        env[i].0@ == name,
        forall|j: int| from <= j < i ==> (#[trigger] env[j]).0@ != name,
    ensures
        variable(env, name, from) == Some(env[i].1@),
    decreases i - from,
{
    if from < i {
        assert(env[from].0@ != name);
        lemma_first_variable(env, name, from + 1, i);
    }
}

/// The search fails exactly where no variable has the name.
proof fn lemma_variable_missing(env: Seq<(String, String)>, name: Seq<char>, from: int)
    requires
        0 <= from,
    ensures
        (forall|j: int| from <= j < env.len() ==> (#[trigger] env[j]).0@ != name) <==> variable(
            env,
            name,
            from,
        ) is None,
    decreases env.len() - from,
{
    if from < env.len() {
        lemma_variable_missing(env, name, from + 1);
        if env[from].0@ != name && variable(env, name, from + 1) is None {
            assert forall|j: int| from <= j < env.len() implies (#[trigger] env[j]).0@ != name by {}
        }
    }
}

/// A placeholder that is opened and never closed is an error, and so is one without
/// a name, whatever follows it.
pub proof fn law_bad_placeholders_are_refused(
    before: Seq<char>,
    after: Seq<char>,
    env: Seq<(String, String)>,
)
    requires
        forall|i: int|
            0 <= i && i + 1 < before.len() ==> !(#[trigger] before[i] == '$' && before[i + 1]
                == '{'),
    ensures
        (forall|i: int| 0 <= i < after.len() ==> #[trigger] after[i] != '}') ==> expansion(
            before + seq!['$', '{'] + after,
            env,
            0,
        ) == Err::<Seq<char>, ConfigFault>(ConfigFault::UnterminatedPlaceholder),
        expansion(before + seq!['$', '{', '}'] + after, env, 0) == Err::<Seq<char>, ConfigFault>(
            ConfigFault::EmptyPlaceholder,
        ),
{
    let start = before.len() as int;
    let s = before + seq!['$', '{'] + after;
    lemma_opens_behind(before, seq!['$', '{'] + after);
    assert(s =~= before + (seq!['$', '{'] + after));
    if forall|i: int| 0 <= i < after.len() ==> #[trigger] after[i] != '}' {
        assert forall|i: int| start + 2 <= i < s.len() implies #[trigger] s[i] != '}' by {
            assert(s[i] == after[i - start - 2]);
        }
        lemma_nothing_closes(s, start + 2, s.len() as int);
        assert(first_close(s, s.len() as int) is None);
    }
    let e = before + seq!['$', '{', '}'] + after;
    lemma_opens_behind(before, seq!['$', '{', '}'] + after);
    assert(e =~= before + (seq!['$', '{', '}'] + after));
    assert(e[start + 2] == '}');
    assert(first_close(e, start + 2) == Some(start + 2));
    assert(e.subrange(start + 2, start + 2).len() == 0);
}

/// The first opening stands right behind a text without one.
proof fn lemma_opens_behind(before: Seq<char>, rest: Seq<char>)
    requires
        forall|i: int|
            0 <= i && i + 1 < before.len() ==> !(#[trigger] before[i] == '$' && before[i + 1]
                == '{'),
        rest.len() >= 2,
        rest[0] == '$',
        rest[1] == '{',
    ensures
        first_open(before + rest, 0) == Some(before.len() as int),
{
    let s = before + rest;
    let start = before.len() as int;
    assert forall|i: int| 0 <= i < start && i + 1 < s.len() implies !(#[trigger] s[i] == '$'
        && s[i + 1] == '{') by {
        assert(s[i] == before[i]);
        if i + 1 < start {
            assert(s[i + 1] == before[i + 1]);
        } else {
            assert(s[i + 1] == rest[0]);
        }
    }
    lemma_nothing_opens(s, 0, start);
    assert(s[start] == rest[0] && s[start + 1] == rest[1]);
}

/// An endpoint is a WebSocket exactly where it begins with `ws://` or `wss://`.
pub proof fn law_web_socket_schemes(url: Seq<char>)
    ensures
        is_web_socket(url) <==> {
            ||| url.len() >= 5 && url[0] == 'w' && url[1] == 's' && url[2] == ':' && url[3] == '/'
                && url[4] == '/'
            ||| url.len() >= 6 && url[0] == 'w' && url[1] == 's' && url[2] == 's' && url[3] == ':'
                && url[4] == '/' && url[5] == '/'
        },
{
    reveal_strlit("ws://");
    reveal_strlit("wss://");
    let plain = seq!['w', 's', ':', '/', '/'];
    let secure = seq!['w', 's', 's', ':', '/', '/'];
    assert("ws://"@ =~= plain);
    assert("wss://"@ =~= secure);
    if has_prefix(url, plain) {
        assert forall|i: int| 0 <= i < 5 implies url[i] == plain[i] by {
            assert(url.take(5)[i] == url[i]);
        }
    }
    if has_prefix(url, secure) {
        assert forall|i: int| 0 <= i < 6 implies url[i] == secure[i] by {
            assert(url.take(6)[i] == url[i]);
        }
    }
    if url.len() >= 5 && url[0] == 'w' && url[1] == 's' && url[2] == ':' && url[3] == '/' && url[4]
        == '/' {
        assert(url.take(5) =~= plain);
    }
    if url.len() >= 6 && url[0] == 'w' && url[1] == 's' && url[2] == 's' && url[3] == ':' && url[4]
        == '/' && url[5] == '/' {
        assert(url.take(6) =~= secure);
    }
}

/// Blocks are watched over the WebSocket endpoint where it is not blank, without the
/// white space around it, and over the RPC endpoint otherwise.
pub proof fn law_endpoint_for_blocks(cfg: BotConfig)
    ensures
        cfg.ws_rpc_url matches Some(url) ==> {
            &&& trimmed(url@).len() > 0 ==> cfg.spec_ws_rpc_url() == Some(trimmed(url@))
                && cfg.subscription_url() == trimmed(url@)
            &&& trimmed(url@).len() == 0 ==> cfg.spec_ws_rpc_url() is None
                && cfg.subscription_url() == cfg.rpc_url@
        },
        cfg.ws_rpc_url is None ==> cfg.spec_ws_rpc_url() is None && cfg.subscription_url()
            == cfg.rpc_url@,
{
}

} // verus!
