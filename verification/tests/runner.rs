use uniswap_arb_bot::config::{BotConfig, ExecutorConfig, RunMode, TelegramConfig};
use uniswap_arb_bot::executor::{
    checked_min_amount_out, execution_call, execution_in_range, executor_config, min_amount_out,
    ExecutorError,
};
use uniswap_arb_bot::opportunity::{leg_on, Opportunity, SwapVenue};
use uniswap_arb_bot::runner::{
    next_report_step, report_steps, watch_step, ReportRun, ReportStep, WatchAction, WatchEvent,
};
use uniswap_arb_bot::types::{Address, U256};

fn addr(n: u8) -> Address {
    let mut bytes = [0u8; 20];
    bytes[19] = n;
    Address(bytes)
}

fn config(run_mode: RunMode, alerts: Option<bool>) -> BotConfig {
    BotConfig {
        rpc_url: "https://rpc.example".to_string(),
        ws_rpc_url: None,
        poll_interval_secs: 12,
        run_mode,
        native_wrapped_token: None,
        min_profit_bps: 20,
        gas_limit: 350_000,
        max_gas_price_gwei: 35,
        debug_quotes: false,
        trade_sizes: vec![],
        pools: vec![],
        executor: Some(ExecutorConfig {
            address: addr(77),
            private_key: "key".to_string(),
            deadline_secs: 60,
        }),
        telegram: alerts.map(|enabled| TelegramConfig {
            enabled,
            bot_token: "token".to_string(),
            chat_id: "chat".to_string(),
        }),
    }
}

fn opportunity(amount_in: U256) -> Opportunity {
    Opportunity {
        first_pool: "a".to_string(),
        second_pool: "b".to_string(),
        token_start: addr(1),
        token_mid: addr(2),
        amount_in,
        amount_after_first: U256::from(1_u64),
        amount_out: U256::from(2_u64),
        gross_profit_wei: 1,
        estimated_net_profit_wei: 1,
        profit_bps: 1,
        gas_adjusted: false,
        unix_ts: 1,
        legs: vec![
            leg_on(SwapVenue::V2, addr(5), addr(1), addr(2)),
            leg_on(SwapVenue::V3 { fee: 3_000 }, addr(6), addr(2), addr(1)),
        ],
    }
}

#[test]
fn the_least_output_holds_the_least_profit() {
    assert_eq!(min_amount_out(U256::from(123_456_789_u64), 20), U256::from(123_703_702_u64));
    assert_eq!(min_amount_out(U256::from(10_000_u64), 0), U256::from(10_000_u64));
    assert_eq!(min_amount_out(U256::zero(), 20), U256::zero());
    assert!(checked_min_amount_out(U256([0, 0, 0, u64::MAX]), 20).is_none());
}

#[test]
fn a_call_carries_the_opportunity() {
    let cfg = config(RunMode::Live, None);
    assert_eq!(executor_config(&cfg).expect("config").address, addr(77));
    let o = opportunity(U256::from(10_000_u64));
    assert!(execution_in_range(&cfg, &o, 1_700_000_000));
    let call = execution_call(&cfg, &o, 1_700_000_000).expect("call");
    assert_eq!(call.executor, addr(77));
    assert_eq!(call.amount_in, U256::from(10_000_u64));
    assert_eq!(call.min_amount_out, U256::from(10_020_u64));
    assert_eq!(call.deadline, U256::from(1_700_000_060_u64));
    assert_eq!(call.legs.len(), 2);
    assert_eq!((call.legs[0].kind, call.legs[0].router), (0, addr(5)));
    assert_eq!((call.legs[1].kind, call.legs[1].fee), (1, 3_000));
}

#[test]
fn nothing_is_called_without_an_executor() {
    let mut cfg = config(RunMode::Live, None);
    cfg.executor = None;
    assert_eq!(executor_config(&cfg).expect_err("config"), ExecutorError::NotConfigured);
    let error = execution_call(&cfg, &opportunity(U256::from(1_u64)), 1).expect_err("call");
    assert_eq!(error, ExecutorError::NotConfigured);
    assert_eq!(error.message(), "live execution requested without executor config");
}

#[test]
fn calls_that_cannot_be_computed_are_detected() {
    let cfg = config(RunMode::Live, None);
    assert!(!execution_in_range(&cfg, &opportunity(U256([0, 0, 0, u64::MAX])), 1));
    assert!(!execution_in_range(&cfg, &opportunity(U256::from(1_u64)), u64::MAX));
    assert!(execution_in_range(&cfg, &opportunity(U256::from(1_u64)), u64::MAX - 60));
}

#[test]
fn a_dry_run_only_reports() {
    assert_eq!(report_steps(&config(RunMode::DryRun, None), 0), [ReportStep::NothingFound]);
    assert_eq!(
        report_steps(&config(RunMode::DryRun, Some(false)), 2),
        [
            ReportStep::Announce { index: 0 },
            ReportStep::Print { index: 0 },
            ReportStep::Announce { index: 1 },
            ReportStep::Print { index: 1 },
        ]
    );
}

#[test]
fn live_mode_executes_each_opportunity() {
    assert_eq!(
        report_steps(&config(RunMode::Live, Some(true)), 2),
        [
            ReportStep::Announce { index: 0 },
            ReportStep::Notify { index: 0 },
            ReportStep::Print { index: 0 },
            ReportStep::Execute { index: 0 },
            ReportStep::Announce { index: 1 },
            ReportStep::Notify { index: 1 },
            ReportStep::Print { index: 1 },
            ReportStep::Execute { index: 1 },
        ]
    );
    assert_eq!(report_steps(&config(RunMode::Live, None), 0), [ReportStep::NothingFound]);
}

#[test]
fn watching_scans_until_told_to_stop() {
    assert_eq!(watch_step(WatchEvent::Tick), WatchAction::Scan);
    assert_eq!(watch_step(WatchEvent::Block), WatchAction::Scan);
    assert_eq!(watch_step(WatchEvent::ScanDone), WatchAction::Wait);
    assert_eq!(watch_step(WatchEvent::ScanFailed), WatchAction::ReportAndWait);
    assert_eq!(watch_step(WatchEvent::Interrupted), WatchAction::Stop);
    assert_eq!(watch_step(WatchEvent::SubscriptionEnded), WatchAction::Stop);
}

/// Carries a report out, with one step that fails, and gives back what was done.
fn carry_out(
    cfg: &BotConfig,
    count: usize,
    failing: Option<ReportStep>,
) -> (Vec<ReportStep>, Result<(), String>) {
    let mut run = ReportRun::new(cfg, count);
    let mut done = Vec::new();
    while let Some(step) = run.next() {
        done.push(step);
        run.record(if Some(step) == failing {
            Err("reverted".to_string())
        } else {
            Ok(())
        });
    }
    (done, run.finish())
}

#[test]
fn a_failed_execution_ends_the_report() {
    let cfg = config(RunMode::Live, None);
    let (done, result) = carry_out(&cfg, 3, Some(ReportStep::Execute { index: 1 }));
    assert_eq!(result, Err("reverted".to_string()));
    assert_eq!(
        done,
        [
            ReportStep::Announce { index: 0 },
            ReportStep::Print { index: 0 },
            ReportStep::Execute { index: 0 },
            ReportStep::Announce { index: 1 },
            ReportStep::Print { index: 1 },
            ReportStep::Execute { index: 1 },
        ]
    );
    let (done, result) = carry_out(&cfg, 3, Some(ReportStep::Print { index: 0 }));
    assert_eq!(result, Err("reverted".to_string()));
    assert_eq!(done, [ReportStep::Announce { index: 0 }, ReportStep::Print { index: 0 }]);
}

#[test]
fn a_report_without_a_failure_is_complete() {
    for mode in [RunMode::DryRun, RunMode::Live] {
        for count in [0, 1, 3] {
            let cfg = config(mode, Some(true));
            let (done, result) = carry_out(&cfg, count, None);
            assert_eq!(result, Ok(()));
            assert_eq!(done, report_steps(&cfg, count));
        }
    }
}

#[test]
fn no_step_follows_a_failure_or_the_end() {
    let steps = report_steps(&config(RunMode::DryRun, None), 1);
    assert_eq!(next_report_step(&steps, 0, false), Some(ReportStep::Announce { index: 0 }));
    assert_eq!(next_report_step(&steps, 1, false), Some(ReportStep::Print { index: 0 }));
    assert_eq!(next_report_step(&steps, 1, true), None);
    assert_eq!(next_report_step(&steps, 2, false), None);
}
