use uniswap_arb_bot::config::{
    default_deadline_secs, default_gas_limit, default_max_gas_price_gwei, default_min_profit_bps,
    default_poll_interval_secs, default_v2_fee_bps, expand_env_vars, transport, BotConfig,
    ConfigError, ExecutorConfig, PoolConfig, RunMode, TradeSize, Transport,
};
use uniswap_arb_bot::types::Address;

fn addr(n: u8) -> Address {
    let mut bytes = [0u8; 20];
    bytes[19] = n;
    Address(bytes)
}

fn pool(name: &str, token0: Address, token1: Address) -> PoolConfig {
    PoolConfig::V2 {
        name: name.to_string(),
        pair: addr(3),
        router: addr(4),
        token0,
        token1,
        fee_bps: default_v2_fee_bps(),
    }
}

fn config() -> BotConfig {
    BotConfig {
        rpc_url: "https://rpc.example".to_string(),
        ws_rpc_url: None,
        poll_interval_secs: default_poll_interval_secs(),
        run_mode: RunMode::default(),
        native_wrapped_token: None,
        min_profit_bps: default_min_profit_bps(),
        gas_limit: default_gas_limit(),
        max_gas_price_gwei: default_max_gas_price_gwei(),
        debug_quotes: false,
        trade_sizes: vec![TradeSize { token: addr(1), amount_wei: "1000".to_string() }],
        pools: vec![pool("a", addr(1), addr(2)), pool("b", addr(2), addr(1))],
        executor: None,
        telegram: None,
    }
}

fn env() -> Vec<(String, String)> {
    vec![
        ("RPC_URL".to_string(), "wss://node".to_string()),
        ("KEY".to_string(), "${RPC_URL}".to_string()),
        ("EMPTY".to_string(), String::new()),
        ("RPC_URL".to_string(), "second".to_string()),
    ]
}

fn expand(raw: &str) -> Result<String, String> {
    expand_env_vars(raw, &env()).map_err(|e| e.message())
}

#[test]
fn dry_run_is_the_default() {
    assert_eq!(RunMode::default(), RunMode::DryRun);
    assert!(!RunMode::DryRun.is_live());
    assert!(RunMode::Live.is_live());
}

#[test]
fn defaults_are_conservative() {
    assert_eq!(default_poll_interval_secs(), 12);
    assert_eq!(default_min_profit_bps(), 20);
    assert_eq!(default_gas_limit(), 350_000);
    assert_eq!(default_max_gas_price_gwei(), 35);
    assert_eq!(default_v2_fee_bps(), 30);
    assert_eq!(default_deadline_secs(), 60);
}

#[test]
fn placeholders_are_replaced() {
    assert_eq!(expand("rpc_url: ${RPC_URL}\n"), Ok("rpc_url: wss://node\n".to_string()));
    assert_eq!(expand("${RPC_URL}${EMPTY}-${RPC_URL}"), Ok("wss://node-wss://node".to_string()));
    assert_eq!(expand("$${RPC_URL}$"), Ok("$wss://node$".to_string()));
    assert_eq!(expand("密钥: ${RPC_URL} 完"), Ok("密钥: wss://node 完".to_string()));
}

#[test]
fn plain_text_stays_as_it_is() {
    for text in ["", "$", "{}", "$ {RPC_URL}", "a $ b { c } d", "$RPC_URL}"] {
        assert_eq!(expand(text), Ok(text.to_string()));
    }
}

#[test]
fn values_are_not_expanded_again() {
    assert_eq!(expand("<${KEY}>"), Ok("<${RPC_URL}>".to_string()));
}

#[test]
fn bad_placeholders_are_explained() {
    assert_eq!(
        expand("a ${RPC_URL"),
        Err("unterminated environment variable placeholder in config".to_string())
    );
    assert_eq!(
        expand("a ${} b"),
        Err("empty environment variable placeholder in config".to_string())
    );
    assert_eq!(expand("${NOPE}"), Err("missing environment variable NOPE".to_string()));
    // The first fault from the left counts.
    assert_eq!(expand("${NOPE} ${"), Err("missing environment variable NOPE".to_string()));
    assert_eq!(expand("${A${B}"), Err("missing environment variable A${B".to_string()));
}

#[test]
fn a_sound_configuration_is_accepted() {
    assert!(config().validate().is_ok());
    let mut live = config();
    live.run_mode = RunMode::Live;
    live.executor = Some(ExecutorConfig {
        address: addr(7),
        private_key: "key".to_string(),
        deadline_secs: default_deadline_secs(),
    });
    assert!(live.validate().is_ok());
}

#[test]
fn each_fault_is_reported() {
    let fault = |change: &dyn Fn(&mut BotConfig)| {
        let mut cfg = config();
        change(&mut cfg);
        cfg.validate().expect_err("fault").message()
    };
    assert_eq!(
        fault(&|cfg| cfg.rpc_url = " \t\u{3000}".to_string()),
        "rpc_url cannot be empty"
    );
    assert_eq!(
        fault(&|cfg| cfg.trade_sizes.clear()),
        "configure at least one trade_sizes entry"
    );
    assert_eq!(
        fault(&|cfg| {
            cfg.pools.pop();
        }),
        "configure at least two pools"
    );
    assert_eq!(
        fault(&|cfg| cfg.run_mode = RunMode::Live),
        "live mode requires executor.address and executor.private_key"
    );
    assert_eq!(
        fault(&|cfg| cfg.trade_sizes.push(TradeSize {
            token: addr(1),
            amount_wei: "1e18".to_string()
        })),
        "invalid decimal U256 1e18: a character is not in the range 0-9"
    );
    assert_eq!(
        fault(&|cfg| cfg.pools.push(pool("odd", addr(5), addr(5)))),
        "pool odd has identical token0/token1"
    );
    // The first fault in this order counts.
    assert_eq!(
        fault(&|cfg| {
            cfg.rpc_url = String::new();
            cfg.pools.clear();
        }),
        "rpc_url cannot be empty"
    );
}

#[test]
fn pools_know_their_parts() {
    let p = pool("a", addr(1), addr(2));
    assert_eq!(p.name(), "a");
    assert_eq!(p.router(), addr(4));
    assert_eq!(p.token0(), addr(1));
    assert_eq!(p.token1(), addr(2));
    assert!(p.contains_token(addr(1)) && p.contains_token(addr(2)) && !p.contains_token(addr(3)));
    assert_eq!(p.clone().name(), "a");
}

#[test]
fn blank_web_socket_endpoints_do_not_count() {
    let mut cfg = config();
    assert_eq!(cfg.ws_rpc_url(), None);
    cfg.ws_rpc_url = Some(" \n".to_string());
    assert_eq!(cfg.ws_rpc_url(), None);
    cfg.ws_rpc_url = Some("\u{a0} wss://node \t".to_string());
    assert_eq!(cfg.ws_rpc_url(), Some("wss://node"));
}

#[test]
fn blocks_need_a_web_socket() {
    let mut cfg = config();
    let error = cfg.blocks_url().expect_err("url");
    assert!(matches!(error, ConfigError::NotWebSocket));
    assert_eq!(
        error.message(),
        "watch-blocks requires ws_rpc_url or rpc_url to start with ws:// or wss://"
    );
    cfg.rpc_url = "ws://local".to_string();
    assert_eq!(cfg.blocks_url().expect("url"), "ws://local");
    cfg.ws_rpc_url = Some(" wss://node ".to_string());
    assert_eq!(cfg.blocks_url().expect("url"), "wss://node");
    cfg.ws_rpc_url = Some("https://node".to_string());
    assert!(cfg.blocks_url().is_err());
}

#[test]
fn the_scheme_decides_the_transport() {
    assert_eq!(transport("wss://node"), Transport::WebSocket);
    assert_eq!(transport("ws://node"), Transport::WebSocket);
    assert_eq!(transport("https://node"), Transport::Http);
    assert_eq!(transport(" wss://node"), Transport::Http);
    assert_eq!(transport("ws:/"), Transport::Http);
    assert_eq!(transport(""), Transport::Http);
}
