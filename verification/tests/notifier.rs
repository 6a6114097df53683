use uniswap_arb_bot::config::{BotConfig, RunMode, TelegramConfig};
use uniswap_arb_bot::notifier::{
    delivery_result, format_opportunity, html_escape, is_success, opportunity_notification,
};
use uniswap_arb_bot::opportunity::{ExecutionLeg, Opportunity};
use uniswap_arb_bot::types::{Address, H256, U256};

fn addr(n: u8) -> Address {
    let mut bytes = [0u8; 20];
    bytes[19] = n;
    Address(bytes)
}

fn sample_opportunity() -> Opportunity {
    let token_start = addr(1);
    let token_mid = addr(2);
    Opportunity {
        first_pool: "pool <A&B>".to_string(),
        second_pool: "pool >B".to_string(),
        token_start,
        token_mid,
        amount_in: U256::from(1_000_u64),
        amount_after_first: U256::from(2_000_u64),
        amount_out: U256::from(1_100_u64),
        gross_profit_wei: 100,
        estimated_net_profit_wei: 80,
        profit_bps: 800,
        gas_adjusted: true,
        unix_ts: 1_700_000_000,
        legs: vec![ExecutionLeg {
            kind: 0,
            router: addr(3),
            fee: 0,
            pool_id: H256::zero(),
            token_in: token_start,
            token_out: token_mid,
        }],
    }
}

fn config(telegram: Option<TelegramConfig>) -> BotConfig {
    BotConfig {
        rpc_url: "https://rpc.example".to_string(),
        ws_rpc_url: None,
        poll_interval_secs: 12,
        run_mode: RunMode::DryRun,
        native_wrapped_token: None,
        min_profit_bps: 20,
        gas_limit: 350_000,
        max_gas_price_gwei: 35,
        debug_quotes: false,
        trade_sizes: vec![],
        pools: vec![],
        executor: None,
        telegram,
    }
}

fn telegram(enabled: bool) -> TelegramConfig {
    TelegramConfig {
        enabled,
        bot_token: "123456:token".to_string(),
        chat_id: "42".to_string(),
    }
}

#[test]
fn telegram_message_formats_and_escapes_html() {
    let message = format_opportunity(&sample_opportunity());

    assert!(message.contains("🚀💰 <b>发现套利机会</b> 💰🚀"));
    assert!(message.contains("pool &lt;A&amp;B&gt; → pool &gt;B"));
    assert!(message.contains("<b>毛利润 wei</b>: 100"));
    assert!(message.contains("<b>预估净利润 wei</b>: 80"));
    assert!(message.contains("<b>利润 bps</b>: 800"));
    assert!(message.contains("<b>已扣 gas</b>: true"));
}

#[test]
fn the_whole_message_is_as_laid_out() {
    let mut opportunity = sample_opportunity();
    opportunity.gas_adjusted = false;
    opportunity.estimated_net_profit_wei = -80;
    assert_eq!(
        format_opportunity(&opportunity),
        "🚀💰 <b>发现套利机会</b> 💰🚀\n\
         \n\
         <b>路径</b>: pool &lt;A&amp;B&gt; → pool &gt;B\n\
         <b>Token</b>: 0x0000000000000000000000000000000000000001 → \
         0x0000000000000000000000000000000000000002 → \
         0x0000000000000000000000000000000000000001\n\
         <b>输入</b>: 1000\n\
         <b>第一跳输出</b>: 2000\n\
         <b>最终输出</b>: 1100\n\
         <b>毛利润 wei</b>: 100\n\
         <b>预估净利润 wei</b>: -80\n\
         <b>利润 bps</b>: 800\n\
         <b>已扣 gas</b>: false"
    );
}

#[test]
fn html_escape_handles_telegram_html_special_chars() {
    assert_eq!(
        html_escape("a < b && c > d"),
        "a &lt; b &amp;&amp; c &gt; d"
    );
}

#[test]
fn escaping_is_successive_replacement() {
    for text in ["", "plain", "&lt;", "<&>", "a&amp;b", "价差 <b>"] {
        let expected = text.replace('&', "&amp;").replace('<', "&lt;").replace('>', "&gt;");
        assert_eq!(html_escape(text), expected);
        assert!(!html_escape(text).contains('<') && !html_escape(text).contains('>'));
    }
    assert_ne!(html_escape("<"), html_escape("&lt;"));
}

#[test]
fn alerts_are_off_unless_switched_on() {
    let opportunity = sample_opportunity();
    assert!(opportunity_notification(&config(None), &opportunity).is_none());
    assert!(opportunity_notification(&config(Some(telegram(false))), &opportunity).is_none());
    let notification =
        opportunity_notification(&config(Some(telegram(true))), &opportunity).expect("alert");
    assert_eq!(notification.url, "https://api.telegram.org/bot123456:token/sendMessage");
    assert_eq!(notification.payload.chat_id, "42");
    assert_eq!(notification.payload.text, format_opportunity(&opportunity));
    assert_eq!(notification.payload.parse_mode, "HTML");
    assert!(notification.payload.disable_web_page_preview);
}

#[test]
fn a_refused_message_is_an_error() {
    assert!(is_success(200) && is_success(204) && is_success(299));
    assert!(!is_success(0) && !is_success(199) && !is_success(300) && !is_success(404));
    assert_eq!(delivery_result(true, "200 OK", "{}"), Ok(()));
    assert_eq!(
        delivery_result(false, "404 Not Found", "no such bot"),
        Err("telegram sendMessage failed: status=404 Not Found, body=no such bot".to_string())
    );
}
