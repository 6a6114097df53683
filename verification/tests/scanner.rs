use std::sync::Arc;
use uniswap_arb_bot::agenda::{scan_steps, ScanStep};
use uniswap_arb_bot::config::{BotConfig, PoolConfig, RunMode, TradeSize};
use uniswap_arb_bot::dex::{Quote, DexKind, QuoteReply, QuoteRequest};
use uniswap_arb_bot::executor::min_amount_out;
use uniswap_arb_bot::opportunity::{
    leg_from_pool, leg_on, same_token_pair, Opportunity, SwapVenue,
};
use uniswap_arb_bot::profit::{
    apply_gas_cost, evaluate_route, scaled_profit_in_range, u256_delta, u256_to_i128, RouteOutcome,
};
use uniswap_arb_bot::ranking::rank;
use uniswap_arb_bot::scanner::{Refusal, ScanAction, Scanner};
use uniswap_arb_bot::types::{Address, H256, U256};

const E18: u128 = 1_000_000_000_000_000_000;

fn addr(n: u8) -> Address {
    let mut bytes = [0u8; 20];
    bytes[19] = n;
    Address(bytes)
}

fn v2(name: &str, pair: u8, token0: u8, token1: u8) -> PoolConfig {
    PoolConfig::V2 {
        name: name.to_string(),
        pair: addr(pair),
        router: addr(100),
        token0: addr(token0),
        token1: addr(token1),
        fee_bps: 30,
    }
}

fn v3(name: &str, quoter: u8, token0: u8, token1: u8) -> PoolConfig {
    PoolConfig::V3 {
        name: name.to_string(),
        quoter: addr(quoter),
        router: addr(101),
        token0: addr(token0),
        token1: addr(token1),
        fee: 500,
    }
}

fn config(pools: Vec<PoolConfig>, amounts: &[&str]) -> BotConfig {
    BotConfig {
        rpc_url: "https://rpc.example".to_string(),
        ws_rpc_url: None,
        poll_interval_secs: 12,
        run_mode: RunMode::DryRun,
        native_wrapped_token: Some(addr(1)),
        min_profit_bps: 20,
        gas_limit: 350_000,
        max_gas_price_gwei: 35,
        debug_quotes: false,
        trade_sizes: amounts
            .iter()
            .map(|amount| TradeSize { token: addr(1), amount_wei: amount.to_string() })
            .collect(),
        pools,
        executor: None,
        telegram: None,
    }
}

/// Runs a scan against a function that plays the chain.
fn run(cfg: BotConfig, chain: &dyn Fn(QuoteRequest) -> QuoteReply) -> (Vec<Opportunity>, Vec<String>) {
    let scanner = Scanner::new(Arc::new(()), cfg);
    let mut state = scanner.scan();
    let mut log = Vec::new();
    let mut clock = 1_700_000_000u64;
    let mut asked = 0;
    loop {
        match scanner.next_action(&state) {
            ScanAction::Skip => {
                let step = state.current().expect("step");
                log.push(step.skip_reason().expect("reason").to_string());
                scanner.skip(&mut state);
            }
            ScanAction::Ask { request } => {
                asked += 1;
                assert!(asked < 100);
                let reply = chain(request);
                assert!(scanner.refusal(&state, &reply).is_none());
                clock += 1;
                if scanner.take_reply(&mut state, reply, clock) {
                    let outcome = state.last_outcome().expect("outcome");
                    log.push(outcome.reason().to_string());
                }
            }
            ScanAction::Abort { error } => {
                log.push(error.message());
                return (Vec::new(), log);
            }
            ScanAction::Finish => return (scanner.finish(state), log),
        }
    }
}

fn pair_reserves(request: QuoteRequest) -> QuoteReply {
    match request {
        QuoteRequest::Reserves { pair } if pair == addr(11) => QuoteReply::Reserves {
            reserve0: 1_000 * E18,
            reserve1: 2_000_000 * E18,
        },
        QuoteRequest::Reserves { pair } if pair == addr(12) => QuoteReply::Reserves {
            reserve0: 2_200_000 * E18,
            reserve1: 1_000 * E18,
        },
        _ => QuoteReply::Failed { message: "no such contract".to_string() },
    }
}

#[test]
fn detects_same_token_pair_regardless_order() {
    let a = addr(1);
    let b = addr(2);
    let pair_a = PoolConfig::V2 {
        name: "a".into(),
        pair: addr(3),
        router: addr(4),
        token0: a,
        token1: b,
        fee_bps: 30,
    };
    let pair_b = PoolConfig::V3 {
        name: "b".into(),
        quoter: addr(5),
        router: addr(6),
        token0: b,
        token1: a,
        fee: 500,
    };
    assert!(same_token_pair(&pair_a, &pair_b));
}

#[test]
fn same_pair_is_symmetric_and_needs_both_tokens() {
    let ab = v2("ab", 11, 1, 2);
    let ba = v2("ba", 12, 2, 1);
    let ac = v3("ac", 13, 1, 3);
    assert!(same_token_pair(&ba, &ab));
    assert!(same_token_pair(&ab, &ab));
    assert!(!same_token_pair(&ab, &ac));
    assert!(!same_token_pair(&ac, &ab));
}

#[test]
fn legs_name_their_venue() {
    let leg = leg_from_pool(&v2("ab", 11, 1, 2), addr(1), addr(2));
    assert_eq!((leg.kind, leg.fee, leg.pool_id.0), (0, 0, [0u8; 32]));
    assert_eq!((leg.router, leg.token_in, leg.token_out), (addr(100), addr(1), addr(2)));
    let leg = leg_from_pool(&v3("ab", 11, 1, 2), addr(2), addr(1));
    assert_eq!((leg.kind, leg.fee, leg.pool_id.0), (1, 500, [0u8; 32]));
    assert_eq!((leg.router, leg.token_in, leg.token_out), (addr(101), addr(2), addr(1)));
    let venue = SwapVenue::BalancerV2 { pool_id: H256([9u8; 32]) };
    let leg = leg_on(venue, addr(7), addr(1), addr(2));
    assert_eq!((leg.kind, leg.fee, leg.pool_id.0), (2, 0, [9u8; 32]));
}

#[test]
fn large_amounts_saturate() {
    assert_eq!(u256_to_i128(U256::from(5_u64)), 5);
    assert_eq!(u256_to_i128(U256::from_u128(i128::MAX as u128)), i128::MAX);
    assert_eq!(u256_to_i128(U256::from_u128(i128::MAX as u128 + 1)), i128::MAX);
    assert_eq!(u256_to_i128(U256([0, 0, 1, 0])), i128::MAX);
    assert_eq!(u256_delta(U256::from(7_u64), U256::from(5_u64)), 2);
    assert_eq!(u256_delta(U256::from(5_u64), U256::from(7_u64)), -2);
    assert_eq!(u256_delta(U256::zero(), U256([0, 0, 0, 1])), -i128::MAX);
}

#[test]
fn gas_is_deducted_in_the_wrapped_native_token_only() {
    let mut cfg = config(vec![], &[]);
    assert_eq!(apply_gas_cost(&cfg, addr(1), 0), (-12_250_000_000_000_000, true));
    assert_eq!(apply_gas_cost(&cfg, addr(2), 5), (5, false));
    cfg.native_wrapped_token = None;
    assert_eq!(apply_gas_cost(&cfg, addr(1), 5), (5, false));
    cfg.native_wrapped_token = Some(addr(1));
    cfg.gas_limit = u64::MAX;
    cfg.max_gas_price_gwei = u64::MAX;
    assert_eq!(apply_gas_cost(&cfg, addr(1), 1), (1 - i128::MAX, true));
}

#[test]
fn the_agenda_follows_the_configuration() {
    let cfg = config(
        vec![v2("a", 11, 1, 2), v2("x", 13, 2, 3), v3("b", 12, 2, 1)],
        &["10", "20", "oops", "30"],
    );
    let steps = scan_steps(&cfg);
    assert_eq!(steps.len(), 11);
    for (t, amount) in [(0usize, 10u64), (1, 20)] {
        let part = &steps[5 * t..5 * t + 5];
        let amount = U256::from(amount);
        assert!(matches!(&part[0], ScanStep::PairMismatch { trade, first: 0, second: 1, amount_in }
            if *trade == t && *amount_in == amount));
        assert!(matches!(&part[1], ScanStep::Route { trade, first: 0, second: 2, amount_in }
            if *trade == t && *amount_in == amount));
        assert!(matches!(&part[2], ScanStep::MissingStartToken { trade, first: 1, amount_in }
            if *trade == t && *amount_in == amount));
        assert!(matches!(&part[3], ScanStep::Route { trade, first: 2, second: 0, amount_in }
            if *trade == t && *amount_in == amount));
        assert!(matches!(&part[4], ScanStep::PairMismatch { trade, first: 2, second: 1, amount_in }
            if *trade == t && *amount_in == amount));
    }
    assert!(matches!(&steps[10], ScanStep::BadAmount { error }
        if error.message() == "invalid decimal U256 oops: a character is not in the range 0-9"));
}

#[test]
fn a_price_difference_is_found() {
    let cfg = config(
        vec![v2("cheap", 11, 1, 2), v2("dear", 12, 2, 1)],
        &["1000000000000000000"],
    );
    let (found, log) = run(cfg, &pair_reserves);
    assert_eq!(found.len(), 1);
    let o = &found[0];
    assert_eq!((o.first_pool.as_str(), o.second_pool.as_str()), ("dear", "cheap"));
    assert_eq!((o.token_start, o.token_mid), (addr(1), addr(2)));
    assert_eq!(o.amount_in, U256::from_u128(E18));
    assert_eq!(o.amount_after_first, U256::from_u128(2_191_215_358_287_787_076_284));
    assert_eq!(o.amount_out, U256::from_u128(1_091_128_993_150_541_076));
    assert_eq!(o.gross_profit_wei, 91_128_993_150_541_076);
    assert_eq!(o.estimated_net_profit_wei, 78_878_993_150_541_076);
    assert_eq!(o.profit_bps, 788);
    assert!(o.gas_adjusted);
    assert_eq!(o.unix_ts, 1_700_000_004);
    assert_eq!(o.legs.len(), 2);
    assert_eq!((o.legs[0].token_in, o.legs[0].token_out), (addr(1), addr(2)));
    assert_eq!((o.legs[1].token_in, o.legs[1].token_out), (addr(2), addr(1)));
    assert_eq!(log, ["not_gross_profitable", "profitable"]);
}

#[test]
fn profit_stays_gross_for_other_tokens() {
    let mut cfg = config(
        vec![v2("cheap", 11, 1, 2), v2("dear", 12, 2, 1)],
        &["1000000000000000000"],
    );
    cfg.native_wrapped_token = Some(addr(2));
    let (found, _) = run(cfg, &pair_reserves);
    assert_eq!(found[0].estimated_net_profit_wei, found[0].gross_profit_wei);
    assert_eq!(found[0].profit_bps, 911);
    assert!(!found[0].gas_adjusted);
}

#[test]
fn the_threshold_counts_after_gas() {
    let cfg = |bps: u32| {
        let mut cfg = config(
            vec![v2("cheap", 11, 1, 2), v2("dear", 12, 2, 1)],
            &["1000000000000000000"],
        );
        cfg.min_profit_bps = bps;
        cfg
    };
    assert_eq!(run(cfg(788), &pair_reserves).0.len(), 1);
    let (found, log) = run(cfg(789), &pair_reserves);
    assert!(found.is_empty());
    assert_eq!(log.last().expect("log"), "below_min_profit_bps");
}

#[test]
fn the_most_promising_comes_first() {
    let cfg = config(
        vec![v2("cheap", 11, 1, 2), v2("dear", 12, 2, 1)],
        &["1000000000000000000", "2000000000000000000", "1000000000000000000"],
    );
    let (found, _) = run(cfg, &pair_reserves);
    assert_eq!(found.len(), 3);
    assert_eq!(found[0].amount_in, U256::from_u128(2 * E18));
    assert_eq!(found[0].gross_profit_wei, 177_715_165_318_077_906);
    assert!(found[1].unix_ts < found[2].unix_ts);
    assert_eq!(found[1].estimated_net_profit_wei, found[2].estimated_net_profit_wei);
}

#[test]
fn routes_without_a_quote_are_skipped() {
    let cfg = config(
        vec![v2("cheap", 11, 1, 2), v2("gone", 99, 1, 2), v2("dear", 12, 2, 1)],
        &["1000000000000000000"],
    );
    let (found, log) = run(cfg, &pair_reserves);
    assert_eq!(found.len(), 1);
    assert!(log.iter().any(|reason| reason == "quote_error"));
}

#[test]
fn an_empty_first_pool_ends_the_route() {
    let cfg = config(vec![v3("a", 21, 1, 2), v3("b", 22, 1, 2)], &["1000"]);
    let (found, log) = run(cfg, &|_| QuoteReply::AmountOut { amount: U256::zero() });
    assert!(found.is_empty());
    assert_eq!(log, ["first_quote_zero", "first_quote_zero"]);
}

#[test]
fn a_quoter_is_asked_for_what_the_first_swap_gave() {
    let cfg = config(vec![v3("a", 21, 1, 2), v3("b", 22, 2, 1)], &["1000"]);
    let chain = |request: QuoteRequest| match request {
        QuoteRequest::ExactInputSingle { quoter, token_in, token_out, fee, amount_in, .. } => {
            assert_eq!(fee, 500);
            assert!(token_in != token_out);
            let factor = if quoter == addr(21) { 3 } else { 2 };
            QuoteReply::AmountOut { amount: U256::from_u128(amount_in.low_u128() * factor) }
        }
        QuoteRequest::Reserves { .. } => panic!("quoters have no reserves"),
    };
    let mut quiet = cfg;
    quiet.native_wrapped_token = None;
    let (found, _) = run(quiet, &chain);
    assert_eq!(found.len(), 2);
    assert_eq!(found[0].amount_after_first, U256::from(3_000_u64));
    assert_eq!(found[0].amount_out, U256::from(6_000_u64));
    assert_eq!(found[0].profit_bps, 50_000);
    assert_eq!(found[1].amount_after_first, U256::from(2_000_u64));
    // A tie stays in the order in which it was found.
    assert_eq!((found[0].first_pool.as_str(), found[1].first_pool.as_str()), ("a", "b"));
}

#[test]
fn a_bad_amount_ends_the_scan() {
    let cfg = config(vec![v3("a", 21, 1, 2), v3("b", 22, 2, 1)], &["1000", "1,000"]);
    let (found, log) = run(cfg, &|_| QuoteReply::AmountOut { amount: U256::from(1_u64) });
    assert!(found.is_empty());
    assert_eq!(
        log.last().expect("log"),
        "invalid decimal U256 1,000: a character is not in the range 0-9"
    );
}

fn quote(token_in: Address, token_out: Address, amount_in: u128, amount_out: u128) -> Quote {
    Quote {
        pool_name: "q".to_string(),
        kind: DexKind::V3,
        token_in,
        token_out,
        amount_in: U256::from_u128(amount_in),
        amount_out: U256::from_u128(amount_out),
    }
}

#[test]
fn a_route_has_to_come_back() {
    let cfg = config(vec![], &[]);
    let (a, b) = (v3("a", 21, 1, 2), v3("b", 22, 2, 3));
    let outcome = evaluate_route(
        &cfg,
        &a,
        &b,
        addr(1),
        U256::from(1_000_u64),
        &quote(addr(1), addr(2), 1_000, 50),
        &quote(addr(2), addr(3), 50, 900),
        7,
    );
    assert_eq!(outcome.reason(), "route_not_closed");
    match outcome {
        RouteOutcome::NotClosed { figures, token_out } => {
            assert_eq!(token_out, addr(3));
            assert_eq!(figures.gross_profit, -100);
            assert_eq!(figures.token_mid, addr(2));
            assert_eq!(figures.amount_after_first, U256::from(50_u64));
        }
        _ => panic!("the route does not come back"),
    }
}

#[test]
fn a_small_loss_after_gas_rounds_to_zero() {
    let mut cfg = config(vec![], &[]);
    cfg.min_profit_bps = 0;
    cfg.gas_limit = 2;
    cfg.max_gas_price_gwei = 1;
    let (a, b) = (v3("a", 21, 1, 2), v3("b", 22, 2, 1));
    let outcome = evaluate_route(
        &cfg,
        &a,
        &b,
        addr(1),
        U256::from_u128(E18),
        &quote(addr(1), addr(2), E18, 50),
        &quote(addr(2), addr(1), 50, E18 + 1),
        7,
    );
    match outcome {
        RouteOutcome::Profitable { opportunity } => {
            assert_eq!(opportunity.estimated_net_profit_wei, 1 - 2_000_000_000);
            assert_eq!(opportunity.profit_bps, 0);
        }
        _ => panic!("a loss below one basis point rounds to zero"),
    }
}

#[test]
fn profits_that_cannot_be_computed_are_detected() {
    let mut cfg = config(vec![], &[]);
    let one = U256::from(1_u64);
    assert!(scaled_profit_in_range(&cfg, addr(1), one, U256::from(2_u64)));
    assert!(scaled_profit_in_range(&cfg, addr(1), U256::zero(), one));
    assert!(!scaled_profit_in_range(&cfg, addr(2), one, U256([0, 0, 1, 0])));
    cfg.gas_limit = u64::MAX;
    cfg.max_gas_price_gwei = u64::MAX;
    assert!(!scaled_profit_in_range(&cfg, addr(1), one, U256::from(2_u64)));
    assert!(scaled_profit_in_range(&cfg, addr(2), one, U256::from(2_u64)));
}

#[test]
fn answers_that_cannot_be_computed_with_are_not_accepted() {
    let cfg = config(vec![v3("a", 21, 1, 2), v2("b", 22, 2, 1)], &["1000"]);
    let scanner = Scanner::new(Arc::new(()), cfg);
    let mut state = scanner.scan();
    let huge = U256([0, 0, 0, u64::MAX]);
    let refusal = scanner.refusal(&state, &QuoteReply::Reserves { reserve0: 1, reserve1: 1 });
    assert_eq!(refusal, Some(Refusal::NotAnAnswer));
    assert_eq!(scanner.pool_client(&state).config().name(), "a");
    let reply = QuoteReply::AmountOut { amount: huge };
    assert!(scanner.refusal(&state, &reply).is_none());
    assert!(!scanner.take_reply(&mut state, reply, 1));
    assert!(state.last_outcome().is_none());
    let reserves = QuoteReply::Reserves { reserve0: 1, reserve1: 1 };
    assert_eq!(scanner.pool_client(&state).config().name(), "b");
    let refusal = scanner.refusal(&state, &reserves).expect("refusal");
    assert_eq!(refusal, Refusal::QuoteOverflow);
    assert_eq!(refusal.message(), "arithmetic operation overflow");
    let amount = QuoteReply::AmountOut { amount: huge };
    let refusal = scanner.refusal(&state, &amount).expect("refusal");
    assert_eq!(refusal, Refusal::NotAnAnswer);
    assert_eq!(refusal.message(), "the reply does not answer the request");
    assert!(scanner.refusal(&state, &QuoteReply::Failed { message: String::new() }).is_none());
    assert_eq!(scanner.config().min_profit_bps, 20);
    assert_eq!(*scanner.provider(), ());
}

#[test]
fn ranking_is_stable() {
    let make = |net: i128, ts: u64| Opportunity {
        first_pool: "a".to_string(),
        second_pool: "b".to_string(),
        token_start: addr(1),
        token_mid: addr(2),
        amount_in: U256::from(1_u64),
        amount_after_first: U256::from(1_u64),
        amount_out: U256::from(2_u64),
        gross_profit_wei: 1,
        estimated_net_profit_wei: net,
        profit_bps: 1,
        gas_adjusted: false,
        unix_ts: ts,
        legs: vec![],
    };
    let ranked = rank(vec![make(5, 0), make(-1, 1), make(9, 2), make(5, 3), make(9, 4)]);
    let order: Vec<u64> = ranked.iter().map(|o| o.unix_ts).collect();
    assert_eq!(order, [2, 4, 0, 3, 1]);
    assert!(rank(vec![]).is_empty());
}

#[test]
fn an_execution_demands_no_more_than_was_quoted() {
    for bps in [0, 20, 788] {
        let mut cfg = config(
            vec![v2("cheap", 11, 1, 2), v2("dear", 12, 2, 1)],
            &["1000000000000000000", "2000000000000000000"],
        );
        cfg.min_profit_bps = bps;
        let (found, _) = run(cfg, &pair_reserves);
        assert!(!found.is_empty());
        for o in found {
            assert!(min_amount_out(o.amount_in, bps) <= o.amount_out);
        }
    }
}

#[test]
fn a_valid_configuration_never_aborts_a_scan() {
    let cfg = config(
        vec![v2("a", 11, 1, 2), v2("x", 13, 2, 3), v3("b", 12, 2, 1)],
        &["10", "", "0020"],
    );
    assert!(cfg.validate().is_ok());
    let steps = scan_steps(&cfg);
    assert_eq!(steps.len(), 15);
    assert!(!steps.iter().any(|step| matches!(step, ScanStep::BadAmount { .. })));
    assert_eq!(steps[0].skip_reason(), Some("pool_pair_mismatch"));
    assert_eq!(steps[1].skip_reason(), None);
    assert_eq!(steps[2].skip_reason(), Some("first_pool_missing_start_token"));
}

#[test]
fn profits_that_cannot_be_a_share_are_refused() {
    let refusal = |amount: &str, out: U256| {
        let cfg = config(vec![v3("a", 21, 1, 2), v3("b", 22, 2, 1)], &[amount]);
        let scanner = Scanner::new(Arc::new(()), cfg);
        let mut state = scanner.scan();
        let first = QuoteReply::AmountOut { amount: U256::from(7_u64) };
        assert_eq!(scanner.refusal(&state, &first), None);
        scanner.take_reply(&mut state, first, 1);
        scanner.refusal(&state, &QuoteReply::AmountOut { amount: out })
    };
    let zero = refusal("0", U256::from(5_u64)).expect("refusal");
    assert_eq!(zero, Refusal::ZeroInput);
    assert_eq!(zero.message(), "attempt to divide by zero");
    let large = refusal("5", U256([0, 0, 1, 0])).expect("refusal");
    assert_eq!(large, Refusal::ProfitOverflow);
    assert_eq!(large.message(), "attempt to multiply with overflow");
    // The profit is scaled before it is divided.
    assert_eq!(refusal("0", U256([0, 0, 1, 0])), Some(Refusal::ProfitOverflow));
    assert_eq!(refusal("0", U256::zero()), None);
    assert_eq!(refusal("5", U256::from(6_u64)), None);
}

/// Runs a scan and gives back its debug records.
fn debug_run(cfg: BotConfig, chain: &dyn Fn(QuoteRequest) -> QuoteReply) -> Vec<(String, String)> {
    let scanner = Scanner::new(Arc::new(()), cfg);
    let mut state = scanner.scan();
    let mut records = Vec::new();
    loop {
        let done = match scanner.next_action(&state) {
            ScanAction::Skip => {
                scanner.skip(&mut state);
                true
            }
            ScanAction::Ask { request } => scanner.take_reply(&mut state, chain(request), 1),
            ScanAction::Abort { .. } | ScanAction::Finish => return records,
        };
        if let (true, Some((step, reason))) = (done, scanner.debug_record(&state)) {
            let place = match step {
                ScanStep::MissingStartToken { trade, first, .. } => format!("{trade} {first}"),
                ScanStep::PairMismatch { trade, first, second, .. }
                | ScanStep::Route { trade, first, second, .. } => {
                    format!("{trade} {first} {second}")
                }
                ScanStep::BadAmount { .. } => panic!("no amount is unreadable"),
            };
            records.push((place, reason.to_string()));
        }
    }
}

#[test]
fn the_debug_switch_logs_each_step_once_and_changes_no_result() {
    let cfg = |debug_quotes: bool| {
        let mut cfg = config(
            vec![v2("cheap", 11, 1, 2), v2("x", 13, 2, 3), v2("dear", 12, 2, 1)],
            &["1000000000000000000"],
        );
        cfg.debug_quotes = debug_quotes;
        cfg
    };
    assert!(debug_run(cfg(false), &pair_reserves).is_empty());
    let records = debug_run(cfg(true), &pair_reserves);
    let expected = [
        ("0 0 1", "pool_pair_mismatch"),
        ("0 0 2", "not_gross_profitable"),
        ("0 1", "first_pool_missing_start_token"),
        ("0 2 0", "profitable"),
        ("0 2 1", "pool_pair_mismatch"),
    ];
    assert_eq!(records.len(), expected.len());
    for (record, (place, reason)) in records.iter().zip(expected) {
        assert_eq!((record.0.as_str(), record.1.as_str()), (place, reason));
    }
    let quiet = run(cfg(false), &pair_reserves).0;
    let noisy = run(cfg(true), &pair_reserves).0;
    assert_eq!(format!("{quiet:?}"), format!("{noisy:?}"));
}

#[test]
fn a_failing_pool_drops_only_its_own_routes() {
    let with = config(
        vec![v2("cheap", 11, 1, 2), v2("gone", 99, 1, 2), v2("dear", 12, 2, 1)],
        &["1000000000000000000", "2000000000000000000"],
    );
    let without = config(
        vec![v2("cheap", 11, 1, 2), v2("dear", 12, 2, 1)],
        &["1000000000000000000", "2000000000000000000"],
    );
    let strip = |mut found: Vec<Opportunity>| {
        for o in found.iter_mut() {
            o.unix_ts = 0;
        }
        format!("{found:?}")
    };
    let (found, _) = run(with, &pair_reserves);
    assert_eq!(found.len(), 2);
    assert!(found.iter().all(|o| o.token_mid != o.token_start));
    assert_eq!(strip(found), strip(run(without, &pair_reserves).0));
}
