use std::sync::Arc;
use uniswap_arb_bot::config::PoolConfig;
use uniswap_arb_bot::dex::{
    accepts_reply, checked_v2_amount_out, other_token, quote_from_reply, quote_request,
    v2_amount_out, v2_reserves, DexKind, PoolClient, QuoteError, QuoteReply, QuoteRequest,
};
use uniswap_arb_bot::types::{Address, U256};

fn addr(n: u8) -> Address {
    let mut bytes = [0u8; 20];
    bytes[19] = n;
    Address(bytes)
}

fn v2_pool(fee_bps: u32) -> PoolConfig {
    PoolConfig::V2 {
        name: "pair".to_string(),
        pair: addr(3),
        router: addr(4),
        token0: addr(1),
        token1: addr(2),
        fee_bps,
    }
}

fn v3_pool() -> PoolConfig {
    PoolConfig::V3 {
        name: "tier".to_string(),
        quoter: addr(5),
        router: addr(6),
        token0: addr(1),
        token1: addr(2),
        fee: 500,
    }
}

#[test]
fn v2_amount_out_matches_uniswap_formula() {
    let amount = U256::from(1_000_u64);
    let out = v2_amount_out(amount, U256::from(10_000_u64), U256::from(20_000_u64), 30)
        .expect("quote");
    assert_eq!(out, U256::from(1_813_u64));
}

#[test]
fn zero_liquidity_quotes_zero() {
    let out =
        v2_amount_out(U256::from(1_u64), U256::zero(), U256::from(10_u64), 30).expect("quote");
    assert_eq!(out, U256::zero());
}

#[test]
fn nothing_in_or_nothing_left_quotes_zero() {
    let some = U256::from(10_u64);
    assert!(v2_amount_out(U256::zero(), some, some, 30).expect("quote").is_zero());
    assert!(v2_amount_out(some, some, U256::zero(), 30).expect("quote").is_zero());
    // The fee is not looked at where there is nothing to trade.
    assert!(v2_amount_out(some, U256::zero(), some, 10_000).expect("quote").is_zero());
}

#[test]
fn quotes_amounts_beyond_64_bits() {
    let e18 = 1_000_000_000_000_000_000u128;
    let out = v2_amount_out(
        U256::from_u128(e18),
        U256::from_u128(5 * e18),
        U256::from_u128(7 * e18),
        25,
    )
    .expect("quote");
    assert_eq!(out, U256::from_u128(1_164_235_097_957_482_284));
}

#[test]
fn a_fee_of_everything_is_refused() {
    let some = U256::from(10_u64);
    let error = v2_amount_out(some, some, some, 10_000).expect_err("fee");
    assert!(matches!(error, QuoteError::FeeTooHigh));
    assert_eq!(error.message(), "fee_bps must be less than 10000");
    assert!(v2_amount_out(some, some, some, 9_999).is_ok());
}

#[test]
fn a_quote_that_leaves_256_bits_is_detected() {
    let huge = U256([u64::MAX, u64::MAX, u64::MAX, u64::MAX]);
    let one = U256::from(1_u64);
    assert!(checked_v2_amount_out(huge, one, one, 30).is_none());
    assert!(checked_v2_amount_out(one, huge, one, 30).is_none());
    assert!(checked_v2_amount_out(one, one, huge, 30).is_none());
    assert!(checked_v2_amount_out(one, one, one, 30).is_some());
    assert!(checked_v2_amount_out(huge, one, one, 10_000).is_some());
}

#[test]
fn trades_keep_the_pool_laws() {
    let x = 1_000_000u128;
    let y = 3_000_000u128;
    let quote = |a: u128, fee: u32| {
        v2_amount_out(U256::from_u128(a), U256::from_u128(x), U256::from_u128(y), fee)
            .expect("quote")
            .low_u128()
    };
    let mut last = 0;
    for a in [1u128, 10, 999, 50_000, 1_000_000, 1_000_000_000] {
        let out = quote(a, 30);
        assert!(out < y);
        assert!(out >= last);
        assert!(out <= quote(a, 5));
        assert!((x + a) * (y - out) >= x * y);
        let back = v2_amount_out(
            U256::from_u128(out),
            U256::from_u128(y),
            U256::from_u128(x),
            30,
        )
        .expect("quote")
        .low_u128();
        assert!(back <= a);
        last = out;
    }
    // Ten times the input buys less than ten times the output.
    assert!(quote(500_000, 30) < 10 * quote(50_000, 30));
}

#[test]
fn other_token_is_the_one_that_comes_out() {
    assert_eq!(other_token(addr(1), addr(2), addr(1)).expect("token"), addr(2));
    assert_eq!(other_token(addr(1), addr(2), addr(2)).expect("token"), addr(1));
    let error = other_token(addr(1), addr(2), addr(255)).expect_err("token");
    assert_eq!(
        error.message(),
        "token 0x00000000000000000000000000000000000000ff is not in pool \
         0x0000000000000000000000000000000000000001/0x0000000000000000000000000000000000000002"
    );
}

#[test]
fn reserves_are_put_in_the_order_of_the_trade() {
    let (token, reserve_in, reserve_out) =
        v2_reserves(addr(1), addr(2), addr(1), 10, 20).expect("reserves");
    assert_eq!(token, addr(2));
    assert_eq!(reserve_in, U256::from(10_u64));
    assert_eq!(reserve_out, U256::from(20_u64));
    let (token, reserve_in, reserve_out) =
        v2_reserves(addr(1), addr(2), addr(2), 10, u128::MAX).expect("reserves");
    assert_eq!(token, addr(1));
    assert_eq!(reserve_in, U256::from_u128(u128::MAX));
    assert_eq!(reserve_out, U256::from(10_u64));
    let error = v2_reserves(addr(1), addr(2), addr(9), 10, 20).expect_err("reserves");
    assert_eq!(
        error.message(),
        "token 0x0000000000000000000000000000000000000009 is not in configured V2 pair"
    );
}

#[test]
fn a_pair_is_asked_for_its_reserves() {
    let pool = v2_pool(30);
    let request = quote_request(&pool, addr(1), U256::from(1_000_u64)).expect("request");
    assert!(matches!(request, QuoteRequest::Reserves { pair } if pair == addr(3)));
    let reply = QuoteReply::Reserves { reserve0: 10_000, reserve1: 20_000 };
    assert!(accepts_reply(&pool, addr(1), U256::from(1_000_u64), &reply));
    let quote = quote_from_reply(&pool, addr(1), U256::from(1_000_u64), &reply).expect("quote");
    assert_eq!(quote.pool_name, "pair");
    assert_eq!(quote.kind, DexKind::V2);
    assert_eq!(quote.token_in, addr(1));
    assert_eq!(quote.token_out, addr(2));
    assert_eq!(quote.amount_in, U256::from(1_000_u64));
    assert_eq!(quote.amount_out, U256::from(1_813_u64));
}

#[test]
fn a_quoter_is_asked_without_a_price_limit() {
    let pool = v3_pool();
    match quote_request(&pool, addr(2), U256::from(7_u64)).expect("request") {
        QuoteRequest::ExactInputSingle {
            quoter,
            token_in,
            token_out,
            fee,
            amount_in,
            sqrt_price_limit,
        } => {
            assert_eq!(quoter, addr(5));
            assert_eq!(token_in, addr(2));
            assert_eq!(token_out, addr(1));
            assert_eq!(fee, 500);
            assert_eq!(amount_in, U256::from(7_u64));
            assert!(sqrt_price_limit.is_zero());
        }
        QuoteRequest::Reserves { .. } => panic!("a quoter has no reserves"),
    }
    assert!(quote_request(&pool, addr(9), U256::from(7_u64)).is_err());
    let reply = QuoteReply::AmountOut { amount: U256::from(41_u64) };
    let quote = quote_from_reply(&pool, addr(2), U256::from(7_u64), &reply).expect("quote");
    assert_eq!(quote.kind, DexKind::V3);
    assert_eq!(quote.amount_out, U256::from(41_u64));
    assert_eq!(quote.token_out, addr(1));
}

#[test]
fn replies_that_do_not_answer_are_not_accepted() {
    let reserves = QuoteReply::Reserves { reserve0: 1, reserve1: 1 };
    let amount = QuoteReply::AmountOut { amount: U256::from(1_u64) };
    let failed = QuoteReply::Failed { message: "connection lost".to_string() };
    let one = U256::from(1_u64);
    assert!(!accepts_reply(&v3_pool(), addr(1), one, &reserves));
    assert!(!accepts_reply(&v2_pool(30), addr(1), one, &amount));
    assert!(accepts_reply(&v3_pool(), addr(1), one, &failed));
    assert!(accepts_reply(&v2_pool(30), addr(1), one, &failed));
    let huge = U256([0, 0, 0, u64::MAX]);
    assert!(!accepts_reply(&v2_pool(30), addr(1), huge, &reserves));
    let error = quote_from_reply(&v2_pool(30), addr(1), one, &failed).expect_err("quote");
    assert_eq!(error.message(), "connection lost");
}

#[test]
fn a_client_keeps_its_pool_and_provider() {
    let provider = Arc::new(5u8);
    let client = PoolClient::new(provider.clone(), v3_pool());
    assert_eq!(client.config().name(), "tier");
    assert!(Arc::ptr_eq(&client.provider(), &provider));
}

#[test]
fn every_pair_quotes_any_amount_of_128_bits() {
    let reserve = U256::from_u128((1 << 112) - 1);
    let amount = U256::from_u128(u128::MAX);
    assert!(checked_v2_amount_out(amount, reserve, reserve, 0).is_some());
    assert!(checked_v2_amount_out(amount, reserve, U256::from(1_u64), 9_999).is_some());
}
