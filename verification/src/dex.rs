//! Quotes: what a pool gives out for an exact input.

use crate::config::PoolConfig;
use crate::types::{law_amounts_have_256_bits, u256_limit, Address, U256};
use std::sync::Arc;
use vstd::arithmetic::power2::pow2;
use vstd::pervasive::unreached;
use vstd::prelude::*;

verus! {

/// The kind of a pool.
#[derive(Clone, Copy, Debug, PartialEq, Eq, Structural)]
pub enum DexKind {
    /// Constant product.
    V2,
    /// Concentrated liquidity.
    V3,
}

/// The model of a quote.
pub struct QuoteView {
    pub pool_name: Seq<char>,
    pub kind: DexKind,
    pub token_in: Address,
    pub token_out: Address,
    pub amount_in: nat,
    pub amount_out: nat,
}

/// What a pool gives out for an exact input.
#[derive(Clone, Debug)]
pub struct Quote {
    /// The configured name of the pool.
    pub pool_name: String,
    /// The kind of the pool.
    pub kind: DexKind,
    /// The token that goes in.
    pub token_in: Address,
    /// The token that comes out.
    pub token_out: Address,
    /// How much goes in.
    pub amount_in: U256,
    /// How much comes out.
    pub amount_out: U256,
}

impl View for Quote {
    type V = QuoteView;

    open spec fn view(&self) -> QuoteView {
        QuoteView {
            pool_name: self.pool_name@,
            kind: self.kind,
            token_in: self.token_in,
            token_out: self.token_out,
            amount_in: self.amount_in@,
            amount_out: self.amount_out@,
        }
    }
}

/// Why there is no quote.
pub enum QuoteFault {
    TokenNotInPair { token: Address },
    TokenNotInPool { token: Address, token0: Address, token1: Address },
    FeeTooHigh,
    Rpc { message: Seq<char> },
}

impl QuoteFault {
    /// How the fault is explained to the operator.
    pub open spec fn text(self) -> Seq<char> {
        match self {
            QuoteFault::TokenNotInPair { token } => "token "@ + token.spec_text()
                + " is not in configured V2 pair"@,
            QuoteFault::TokenNotInPool { token, token0, token1 } => "token "@ + token.spec_text()
                + " is not in pool "@ + token0.spec_text() + "/"@ + token1.spec_text(),
            QuoteFault::FeeTooHigh => "fee_bps must be less than 10000"@,
            QuoteFault::Rpc { message } => message,
        }
    }
}

/// An error of a quote.
#[derive(Debug)]
pub enum QuoteError {
    /// The token is not one of the two of a constant-product pool.
    TokenNotInPair { token: Address },
    /// The token is not one of the two of a pool.
    TokenNotInPool { token: Address, token0: Address, token1: Address },
    /// A constant-product pool cannot keep everything as its fee.
    FeeTooHigh,
    /// The chain could not be asked.
    Rpc { message: String },
}

impl View for QuoteError {
    type V = QuoteFault;

    open spec fn view(&self) -> QuoteFault {
        match *self {
            QuoteError::TokenNotInPair { token } => QuoteFault::TokenNotInPair { token },
            QuoteError::TokenNotInPool { token, token0, token1 } => QuoteFault::TokenNotInPool {
                token,
                token0,
                token1,
            },
            QuoteError::FeeTooHigh => QuoteFault::FeeTooHigh,
            QuoteError::Rpc { message } => QuoteFault::Rpc { message: message@ },
        }
    }
}

impl QuoteError {
    /// How the error is explained to the operator.
    pub fn message(&self) -> (r: String)
        ensures
            r@ == self@.text(),
    {
        let mut out = String::new();
        match self {
            QuoteError::TokenNotInPair { token } => {
                out.append("token ");
                out.append(token.debug_text().as_str());
                out.append(" is not in configured V2 pair");
            },
            QuoteError::TokenNotInPool { token, token0, token1 } => {
                out.append("token ");
                out.append(token.debug_text().as_str());
                out.append(" is not in pool ");
                out.append(token0.debug_text().as_str());
                out.append("/");
                out.append(token1.debug_text().as_str());
            },
            QuoteError::FeeTooHigh => out.append("fee_bps must be less than 10000"),
            QuoteError::Rpc { message } => out.append(message.as_str()),
        }
        assert(out@ =~= self@.text());
        out
    }
}

/// The other one of two tokens.
pub open spec fn spec_other_token(token0: Address, token1: Address, token_in: Address) -> Option<
    Address,
> {
    if token_in == token0 {
        Some(token1)
    } else if token_in == token1 {
        Some(token0)
    } else {
        None
    }
}

/// The token that comes out of a pool for `token_in`.
pub fn other_token(token0: Address, token1: Address, token_in: Address) -> (r: Result<
    Address,
    QuoteError,
>)
    ensures
        match spec_other_token(token0, token1, token_in) {
            Some(token_out) => r matches Ok(t) && t == token_out,
            None => r matches Err(e) && e@ == (QuoteFault::TokenNotInPool {
                token: token_in,
                token0,
                token1,
            }),
        },
{
    if token_in == token0 {
        Ok(token1)
    } else if token_in == token1 {
        Ok(token0)
    } else {
        Err(QuoteError::TokenNotInPool { token: token_in, token0, token1 })
    }
}

/// Puts the reserves of a pair in the order of a trade that takes in `token_in`:
/// the token that comes out, the reserve of what goes in, the reserve of what
/// comes out.
pub fn v2_reserves(
    token0: Address,
    token1: Address,
    token_in: Address,
    reserve0: u128,
    reserve1: u128,
) -> (r: Result<(Address, U256, U256), QuoteError>)
    ensures
        match spec_other_token(token0, token1, token_in) {
            Some(token_out) => r matches Ok(t) && t.0 == token_out && t.1@ == (if token_in
                == token0 {
                reserve0
            } else {
                reserve1
            }) && t.2@ == (if token_in == token0 {
                reserve1
            } else {
                reserve0
            }),
            None => r matches Err(e) && e@ == (QuoteFault::TokenNotInPair { token: token_in }),
        },
{
    if token_in == token0 {
        Ok((token1, U256::from_u128(reserve0), U256::from_u128(reserve1)))
    } else if token_in == token1 {
        Ok((token0, U256::from_u128(reserve1), U256::from_u128(reserve0)))
    } else {
        Err(QuoteError::TokenNotInPair { token: token_in })
    }
}

/// Whether there is nothing to trade, or nothing to trade against.
pub open spec fn v2_idle(amount_in: nat, reserve_in: nat, reserve_out: nat) -> bool {
    amount_in == 0 || reserve_in == 0 || reserve_out == 0
}

/// The part of `amount_in` that trades, in ten-thousandths.
pub open spec fn v2_after_fee(amount_in: nat, fee_bps: nat) -> nat
    recommends
        fee_bps <= 10_000,
{
    amount_in * (10_000 - fee_bps) as nat
}

/// What a constant-product pool gives out:
/// `in * reserve_out / (reserve_in + in)`, rounded down, where `in` is what is
/// left of the input after the fee.
pub open spec fn v2_out(amount_in: nat, reserve_in: nat, reserve_out: nat, fee_bps: nat) -> nat {
    if v2_idle(amount_in, reserve_in, reserve_out) {
        0
    } else {
        (v2_after_fee(amount_in, fee_bps) * reserve_out) / (reserve_in * 10_000 + v2_after_fee(
            amount_in,
            fee_bps,
        ))
    }
}

/// Whether the computation of a constant-product quote stays within 256 bits.
pub open spec fn v2_fits(amount_in: nat, reserve_in: nat, reserve_out: nat, fee_bps: nat) -> bool {
    ||| v2_idle(amount_in, reserve_in, reserve_out)
    ||| fee_bps >= 10_000
    ||| {
        &&& v2_after_fee(amount_in, fee_bps) * reserve_out < u256_limit()
        &&& reserve_in * 10_000 + v2_after_fee(amount_in, fee_bps) < u256_limit()
    }
}

/// The answer of a constant-product pool: nothing comes out where there is
/// nothing to trade, and the fee has to leave something of the input.
pub open spec fn v2_result(
    amount_in: nat,
    reserve_in: nat,
    reserve_out: nat,
    fee_bps: nat,
) -> Result<nat, QuoteFault> {
    if !v2_idle(amount_in, reserve_in, reserve_out) && fee_bps >= 10_000 {
        Err(QuoteFault::FeeTooHigh)
    } else {
        Ok(v2_out(amount_in, reserve_in, reserve_out, fee_bps))
    }
}

/// Whether `r` is the outcome `model`.
pub open spec fn amount_is(r: Result<U256, QuoteError>, model: Result<nat, QuoteFault>) -> bool {
    match model {
        Ok(amount) => r matches Ok(v) && v@ == amount,
        Err(fault) => r matches Err(e) && e@ == fault,
    }
}

/// What a constant-product pool gives out, or nothing where the computation
/// would leave 256 bits.
pub fn checked_v2_amount_out(
    amount_in: U256,
    reserve_in: U256,
    reserve_out: U256,
    fee_bps: u32,
) -> (r: Option<Result<U256, QuoteError>>)
    ensures
        r is Some <==> v2_fits(amount_in@, reserve_in@, reserve_out@, fee_bps as nat),
        r matches Some(answer) ==> amount_is(
            answer,
            v2_result(amount_in@, reserve_in@, reserve_out@, fee_bps as nat),
        ),
{
    if amount_in.is_zero() || reserve_in.is_zero() || reserve_out.is_zero() {
        return Some(Ok(U256::zero()));
    }
    if fee_bps >= 10_000 {
        return Some(Err(QuoteError::FeeTooHigh));
    }
    let fee_denominator = U256::from(10_000u64);
    let fee_multiplier = U256::from(10_000u64 - fee_bps as u64);
    let ghost after_fee = v2_after_fee(amount_in@, fee_bps as nat);
    proof {
        assert(after_fee * reserve_out@ >= after_fee) by (nonlinear_arith)
            requires
                reserve_out@ >= 1,
        ;
    }
    let amount_in_with_fee = match amount_in.checked_mul(fee_multiplier) {
        Some(v) => v,
        None => {
            return None;
        },
    };
    let numerator = match amount_in_with_fee.checked_mul(reserve_out) {
        Some(v) => v,
        None => {
            return None;
        },
    };
    let scaled_reserve = match reserve_in.checked_mul(fee_denominator) {
        Some(v) => v,
        None => {
            return None;
        },
    };
    let denominator = match scaled_reserve.checked_add(amount_in_with_fee) {
        Some(v) => v,
        None => {
            return None;
        },
    };
    match numerator.checked_div(denominator) {
        Some(out) => Some(Ok(out)),
        None => None,
    }
}

/// What a constant-product pool gives out.
pub fn v2_amount_out(
    amount_in: U256,
    reserve_in: U256,
    reserve_out: U256,
    fee_bps: u32,
) -> (r: Result<U256, QuoteError>)
    requires
        v2_fits(amount_in@, reserve_in@, reserve_out@, fee_bps as nat),
    ensures
        amount_is(r, v2_result(amount_in@, reserve_in@, reserve_out@, fee_bps as nat)),
        r matches Ok(out) ==> {
            let left = amount_in@ * (10_000 - fee_bps);
            &&& amount_in@ == 0 || reserve_in@ == 0 || reserve_out@ == 0 ==> out@ == 0
            &&& amount_in@ > 0 && reserve_in@ > 0 && reserve_out@ > 0 ==> {
                &&& fee_bps < 10_000
                &&& out@ * (reserve_in@ * 10_000 + left) <= left * reserve_out@
                &&& left * reserve_out@ < (out@ + 1) * (reserve_in@ * 10_000 + left)
            }
        },
        r is Err <==> amount_in@ > 0 && reserve_in@ > 0 && reserve_out@ > 0 && fee_bps >= 10_000,
{
    proof {
        if amount_in@ > 0 && reserve_in@ > 0 && reserve_out@ > 0 {
            law_constant_product_quote(amount_in@, reserve_in@, reserve_out@, fee_bps as nat);
        }
    }
    checked_v2_amount_out(amount_in, reserve_in, reserve_out, fee_bps).unwrap()
}

/// What has to be asked of the chain before a pool can be quoted.
#[derive(Clone, Copy, Debug)]
pub enum QuoteRequest {
    /// Read the reserves of a pair.
    Reserves { pair: Address },
    /// Call a quoter contract for an exact input, without a price limit.
    ExactInputSingle {
        quoter: Address,
        token_in: Address,
        token_out: Address,
        fee: u32,
        amount_in: U256,
        sqrt_price_limit: U256,
    },
}

/// What the chain answered.
#[derive(Debug)]
pub enum QuoteReply {
    /// The reserves of the pair.
    Reserves { reserve0: u128, reserve1: u128 },
    /// The output that the quoter computed.
    AmountOut { amount: U256 },
    /// Nothing, for the reason given.
    Failed { message: String },
}

/// Whether `request` asks the chain for what a quote of `pool` for `amount_in` of
/// `token_in` depends on.
pub open spec fn request_asks(
    pool: PoolConfig,
    token_in: Address,
    amount_in: nat,
    request: QuoteRequest,
) -> bool {
    match pool {
        PoolConfig::V2 { pair, .. } => request == (QuoteRequest::Reserves { pair }),
        PoolConfig::V3 { quoter, token0, token1, fee, .. } => {
            &&& request matches QuoteRequest::ExactInputSingle {
                quoter: asked,
                token_in: given,
                token_out,
                fee: tier,
                amount_in: amount,
                sqrt_price_limit,
            }
            &&& asked == quoter
            &&& given == token_in
            &&& Some(token_out) == spec_other_token(token0, token1, token_in)
            &&& tier == fee
            &&& amount@ == amount_in
            &&& sqrt_price_limit@ == 0
        },
    }
}

/// Whether `reply` answers what is asked of `pool`.
pub open spec fn reply_answers(pool: PoolConfig, reply: QuoteReply) -> bool {
    match reply {
        QuoteReply::Reserves { .. } => pool is V2,
        QuoteReply::AmountOut { .. } => pool is V3,
        QuoteReply::Failed { .. } => true,
    }
}

/// Whether the quote computed from `reply` stays within 256 bits.
pub open spec fn reply_fits(
    pool: PoolConfig,
    token_in: Address,
    amount_in: nat,
    reply: QuoteReply,
) -> bool {
    match (pool, reply) {
        (
            PoolConfig::V2 { token0, token1, fee_bps, .. },
            QuoteReply::Reserves { reserve0, reserve1 },
        ) => {
            if token_in == token0 {
                v2_fits(amount_in, reserve0 as nat, reserve1 as nat, fee_bps as nat)
            } else if token_in == token1 {
                v2_fits(amount_in, reserve1 as nat, reserve0 as nat, fee_bps as nat)
            } else {
                true
            }
        },
        _ => true,
    }
}

/// The quote of `pool` for `amount_in` of `token_in`, given what the chain
/// answered.
pub open spec fn quote_result(
    pool: PoolConfig,
    token_in: Address,
    amount_in: nat,
    reply: QuoteReply,
) -> Result<QuoteView, QuoteFault> {
    match (pool, reply) {
        (_, QuoteReply::Failed { message }) => Err(QuoteFault::Rpc { message: message@ }),
        (
            PoolConfig::V2 { name, token0, token1, fee_bps, .. },
            QuoteReply::Reserves { reserve0, reserve1 },
        ) => match spec_other_token(token0, token1, token_in) {
            None => Err(QuoteFault::TokenNotInPair { token: token_in }),
            Some(token_out) => {
                let answer = if token_in == token0 {
                    v2_result(amount_in, reserve0 as nat, reserve1 as nat, fee_bps as nat)
                } else {
                    v2_result(amount_in, reserve1 as nat, reserve0 as nat, fee_bps as nat)
                };
                match answer {
                    Err(fault) => Err(fault),
                    Ok(amount_out) => Ok(
                        QuoteView {
                            pool_name: name@,
                            kind: DexKind::V2,
                            token_in,
                            token_out,
                            amount_in,
                            amount_out,
                        },
                    ),
                }
            },
        },
        (
            PoolConfig::V3 { name, token0, token1, .. },
            QuoteReply::AmountOut { amount },
        ) => match spec_other_token(token0, token1, token_in) {
            None => Err(QuoteFault::TokenNotInPool { token: token_in, token0, token1 }),
            Some(token_out) => Ok(
                QuoteView {
                    pool_name: name@,
                    kind: DexKind::V3,
                    token_in,
                    token_out,
                    amount_in,
                    amount_out: amount@,
                },
            ),
        },
        _ => arbitrary(),
    }
}

/// A quote is of the token and the amount that were asked for, and gives out the
/// other token of its pool.
pub proof fn lemma_quote_tokens(
    pool: PoolConfig,
    token_in: Address,
    amount_in: nat,
    reply: QuoteReply,
)
    requires
        reply_answers(pool, reply),
    ensures
        quote_result(pool, token_in, amount_in, reply) matches Ok(quote) ==> {
            &&& quote.token_in == token_in
            &&& quote.amount_in == amount_in
            &&& quote.pool_name == pool.spec_name()
            &&& Some(quote.token_out) == spec_other_token(
                pool.spec_token0(),
                pool.spec_token1(),
                token_in,
            )
        },
{
}

/// Whether `r` is the outcome `model`.
pub open spec fn quote_is(r: Result<Quote, QuoteError>, model: Result<QuoteView, QuoteFault>) -> bool {
    match model {
        Ok(quote) => r matches Ok(q) && q@ == quote,
        Err(fault) => r matches Err(e) && e@ == fault,
    }
}

/// What to ask the chain for a quote of `pool`: the reserves of a
/// constant-product pair, whatever the token; the quoter's answer otherwise, for
/// a token of the pool.
pub fn quote_request(pool: &PoolConfig, token_in: Address, amount_in: U256) -> (r: Result<
    QuoteRequest,
    QuoteError,
>)
    ensures
        *pool is V2 || pool.spec_contains_token(token_in) ==> (r matches Ok(request)
            && request_asks(*pool, token_in, amount_in@, request)),
        *pool is V3 && !pool.spec_contains_token(token_in) ==> (r matches Err(e) && e@ == (
        QuoteFault::TokenNotInPool {
            token: token_in,
            token0: pool.spec_token0(),
            token1: pool.spec_token1(),
        })),
{
    match pool {
        PoolConfig::V2 { pair, .. } => Ok(QuoteRequest::Reserves { pair: *pair }),
        PoolConfig::V3 { quoter, token0, token1, fee, .. } => {
            let token_out = match other_token(*token0, *token1, token_in) {
                Ok(token_out) => token_out,
                Err(e) => {
                    return Err(e);
                },
            };
            Ok(
                QuoteRequest::ExactInputSingle {
                    quoter: *quoter,
                    token_in,
                    token_out,
                    fee: *fee,
                    amount_in,
                    sqrt_price_limit: U256::zero(),
                },
            )
        },
    }
}

/// Whether `reply` answers what is asked of `pool`.
pub fn answers(pool: &PoolConfig, reply: &QuoteReply) -> (r: bool)
    ensures
        r == reply_answers(*pool, *reply),
{
    match (pool, reply) {
        (_, QuoteReply::Failed { .. }) => true,
        (PoolConfig::V2 { .. }, QuoteReply::Reserves { .. }) => true,
        (PoolConfig::V3 { .. }, QuoteReply::AmountOut { .. }) => true,
        (PoolConfig::V2 { .. }, QuoteReply::AmountOut { .. }) => false,
        (PoolConfig::V3 { .. }, QuoteReply::Reserves { .. }) => false,
    }
}

/// Whether `reply` answers what is asked of `pool` and the quote computed from it
/// stays within 256 bits.
pub fn accepts_reply(
    pool: &PoolConfig,
    token_in: Address,
    amount_in: U256,
    reply: &QuoteReply,
) -> (r: bool)
    ensures
        r == (reply_answers(*pool, *reply) && reply_fits(*pool, token_in, amount_in@, *reply)),
{
    match (pool, reply) {
        (_, QuoteReply::Failed { .. }) => true,
        (
            PoolConfig::V2 { token0, token1, fee_bps, .. },
            QuoteReply::Reserves { reserve0, reserve1 },
        ) => match v2_reserves(*token0, *token1, token_in, *reserve0, *reserve1) {
            Ok((_, reserve_in, reserve_out)) => checked_v2_amount_out(
                amount_in,
                reserve_in,
                reserve_out,
                *fee_bps,
            ).is_some(),
            Err(_) => true,
        },
        (PoolConfig::V3 { .. }, QuoteReply::AmountOut { .. }) => true,
        (PoolConfig::V2 { .. }, QuoteReply::AmountOut { .. }) => false,
        (PoolConfig::V3 { .. }, QuoteReply::Reserves { .. }) => false,
    }
}

/// The quote of `pool` for `amount_in` of `token_in`, given what the chain
/// answered.
pub fn quote_from_reply(
    pool: &PoolConfig,
    token_in: Address,
    amount_in: U256,
    reply: &QuoteReply,
) -> (r: Result<Quote, QuoteError>)
    requires
        reply_answers(*pool, *reply),
        reply_fits(*pool, token_in, amount_in@, *reply),
    ensures
        quote_is(r, quote_result(*pool, token_in, amount_in@, *reply)),
{
    if let QuoteReply::Failed { message } = reply {
        return Err(QuoteError::Rpc { message: message.clone() });
    }
    match pool {
        PoolConfig::V2 { name, token0, token1, fee_bps, .. } => {
            let (reserve0, reserve1): (u128, u128) = match reply {
                QuoteReply::Reserves { reserve0, reserve1 } => (*reserve0, *reserve1),
                _ => unreached(),
            };
            let (token_out, reserve_in, reserve_out) = match v2_reserves(
                *token0,
                *token1,
                token_in,
                reserve0,
                reserve1,
            ) {
                Ok(parts) => parts,
                Err(e) => {
                    return Err(e);
                },
            };
            match v2_amount_out(amount_in, reserve_in, reserve_out, *fee_bps) {
                Ok(amount_out) => Ok(
                    Quote {
                        pool_name: name.clone(),
                        kind: DexKind::V2,
                        token_in,
                        token_out,
                        amount_in,
                        amount_out,
                    },
                ),
                Err(e) => Err(e),
            }
        },
        PoolConfig::V3 { name, token0, token1, .. } => {
            let token_out = match other_token(*token0, *token1, token_in) {
                Ok(token_out) => token_out,
                Err(e) => {
                    return Err(e);
                },
            };
            let amount_out = match reply {
                QuoteReply::AmountOut { amount } => *amount,
                _ => unreached(),
            };
            Ok(
                Quote {
                    pool_name: name.clone(),
                    kind: DexKind::V3,
                    token_in,
                    token_out,
                    amount_in,
                    amount_out,
                },
            )
        },
    }
}

/// A pool together with the provider that asks the chain about it.
#[derive(Clone)]
pub struct PoolClient<M> {
    provider: Arc<M>,
    config: PoolConfig,
}

impl<M> PoolClient<M> {
    /// The provider that asks the chain.
    pub closed spec fn spec_provider(self) -> Arc<M> {
        self.provider
    }

    /// The pool.
    pub closed spec fn spec_config(self) -> PoolConfig {
        self.config
    }

    /// A client for one pool.
    pub fn new(provider: Arc<M>, config: PoolConfig) -> (r: Self)
        ensures
            r.spec_provider() == provider,
            r.spec_config() == config,
    {
        Self { provider, config }
    }

    /// The provider that asks the chain.
    pub fn provider(&self) -> (r: Arc<M>)
        ensures
            r == self.spec_provider(),
    {
        self.provider.clone()
    }

    /// The pool.
    pub fn config(&self) -> (r: &PoolConfig)
        ensures
            *r == self.spec_config(),
    {
        &self.config
    }
}

/// A quotient rounded down is the largest number whose product with the divisor
/// does not exceed the dividend.
proof fn lemma_quotient(a: int, b: int)
    requires
        a >= 0,
        b > 0,
    ensures
        a / b >= 0,
        (a / b) * b <= a,
        a < (a / b + 1) * b,
{
    vstd::arithmetic::div_mod::lemma_fundamental_div_mod(a, b);
    vstd::arithmetic::div_mod::lemma_div_pos_is_pos(a, b);
    assert((a / b) * b == b * (a / b)) by (nonlinear_arith);
    assert((a / b + 1) * b == b * (a / b) + b) by (nonlinear_arith);
}

/// What a trade on a constant-product pool with something in it pays for.
proof fn lemma_v2_out(amount_in: nat, reserve_in: nat, reserve_out: nat, fee_bps: nat)
    requires
        reserve_in > 0,
        reserve_out > 0,
        fee_bps < 10_000,
    ensures
        ({
            let paid = v2_after_fee(amount_in, fee_bps);
            let out = v2_out(amount_in, reserve_in, reserve_out, fee_bps);
            &&& 0 <= paid <= amount_in * 10_000
            &&& out * (reserve_in * 10_000 + paid) <= paid * reserve_out
            &&& paid * reserve_out < (out + 1) * (reserve_in * 10_000 + paid)
        }),
{
    let paid = v2_after_fee(amount_in, fee_bps);
    let keep = (10_000 - fee_bps) as nat;
    assert(0 <= amount_in * keep <= amount_in * 10_000) by (nonlinear_arith)
        requires
            0 <= keep <= 10_000,
    ;
    assert(paid * reserve_out >= 0) by (nonlinear_arith);
    lemma_quotient((paid * reserve_out) as int, (reserve_in * 10_000 + paid) as int);
    if amount_in == 0 {
        assert(paid == 0) by (nonlinear_arith)
            requires
                paid == amount_in * keep,
                amount_in == 0,
        ;
        assert(paid * reserve_out == 0) by (nonlinear_arith)
            requires
                paid == 0,
        ;
    }
}

/// Nothing comes out where nothing goes in or the pool is empty.
pub proof fn law_idle_pool_quotes_zero(
    amount_in: nat,
    reserve_in: nat,
    reserve_out: nat,
    fee_bps: nat,
)
    requires
        amount_in == 0 || reserve_in == 0 || reserve_out == 0,
    ensures
        v2_result(amount_in, reserve_in, reserve_out, fee_bps) == Ok::<nat, QuoteFault>(0),
        v2_fits(amount_in, reserve_in, reserve_out, fee_bps),
{
}

/// A trade never empties a pool.
pub proof fn law_trade_never_drains_pool(
    amount_in: nat,
    reserve_in: nat,
    reserve_out: nat,
    fee_bps: nat,
)
    requires
        reserve_in > 0,
        reserve_out > 0,
        fee_bps < 10_000,
    ensures
        v2_out(amount_in, reserve_in, reserve_out, fee_bps) < reserve_out,
{
    lemma_v2_out(amount_in, reserve_in, reserve_out, fee_bps);
    let paid = v2_after_fee(amount_in, fee_bps) as int;
    let out = v2_out(amount_in, reserve_in, reserve_out, fee_bps) as int;
    assert(out < reserve_out) by (nonlinear_arith)
        requires
            out * (reserve_in * 10_000 + paid) <= paid * reserve_out,
            reserve_in > 0,
            reserve_out > 0,
            paid >= 0,
    ;
}

/// A trade never lowers the product of the reserves.
pub proof fn law_trade_keeps_product(
    amount_in: nat,
    reserve_in: nat,
    reserve_out: nat,
    fee_bps: nat,
)
    requires
        reserve_in > 0,
        reserve_out > 0,
        fee_bps < 10_000,
    ensures
        (reserve_in + amount_in) * (reserve_out - v2_out(
            amount_in,
            reserve_in,
            reserve_out,
            fee_bps,
        )) >= reserve_in * reserve_out,
{
    lemma_v2_out(amount_in, reserve_in, reserve_out, fee_bps);
    let a = amount_in as int;
    let x = reserve_in as int;
    let y = reserve_out as int;
    let paid = v2_after_fee(amount_in, fee_bps) as int;
    let out = v2_out(amount_in, reserve_in, reserve_out, fee_bps) as int;
    // The output pays for no more than the whole input.
    assert(out * (x + a) <= a * y) by {
        assert(out * x * 10_000 <= paid * (y - out)) by (nonlinear_arith)
            requires
                out * (x * 10_000 + paid) <= paid * y,
        ;
        law_trade_never_drains_pool(amount_in, reserve_in, reserve_out, fee_bps);
        assert(paid * (y - out) <= a * 10_000 * (y - out)) by (nonlinear_arith)
            requires
                paid <= a * 10_000,
                y - out > 0,
        ;
        assert(out * x <= a * (y - out)) by (nonlinear_arith)
            requires
                out * x * 10_000 <= a * 10_000 * (y - out),
        ;
        assert(out * (x + a) <= a * y) by (nonlinear_arith)
            requires
                out * x <= a * (y - out),
        ;
    }
    assert((x + a) * (y - out) >= x * y) by (nonlinear_arith)
        requires
            out * (x + a) <= a * y,
    ;
}

/// A larger input never gives a smaller output.
pub proof fn law_output_grows_with_input(
    small: nat,
    large: nat,
    reserve_in: nat,
    reserve_out: nat,
    fee_bps: nat,
)
    requires
        small <= large,
        fee_bps < 10_000,
    ensures
        v2_out(small, reserve_in, reserve_out, fee_bps) <= v2_out(
            large,
            reserve_in,
            reserve_out,
            fee_bps,
        ),
{
    if reserve_in > 0 && reserve_out > 0 {
        lemma_v2_out(small, reserve_in, reserve_out, fee_bps);
        lemma_v2_out(large, reserve_in, reserve_out, fee_bps);
        let p = v2_after_fee(small, fee_bps) as int;
        let q = v2_after_fee(large, fee_bps) as int;
        let keep = (10_000 - fee_bps) as int;
        assert(small * keep <= large * keep) by (nonlinear_arith)
            requires
                small <= large,
                keep >= 0,
        ;
        lemma_output_grows_with_payment(
            p,
            q,
            reserve_in as int,
            reserve_out as int,
            v2_out(small, reserve_in, reserve_out, fee_bps) as int,
            v2_out(large, reserve_in, reserve_out, fee_bps) as int,
        );
    }
}

/// A higher fee never gives a larger output.
pub proof fn law_output_falls_with_fee(
    amount_in: nat,
    reserve_in: nat,
    reserve_out: nat,
    low_fee: nat,
    high_fee: nat,
)
    requires
        low_fee <= high_fee < 10_000,
    ensures
        v2_out(amount_in, reserve_in, reserve_out, high_fee) <= v2_out(
            amount_in,
            reserve_in,
            reserve_out,
            low_fee,
        ),
{
    if reserve_in > 0 && reserve_out > 0 {
        lemma_v2_out(amount_in, reserve_in, reserve_out, high_fee);
        lemma_v2_out(amount_in, reserve_in, reserve_out, low_fee);
        let p = v2_after_fee(amount_in, high_fee) as int;
        let q = v2_after_fee(amount_in, low_fee) as int;
        assert(amount_in * (10_000 - high_fee) <= amount_in * (10_000 - low_fee))
            by (nonlinear_arith)
            requires
                low_fee <= high_fee,
                amount_in >= 0,
        ;
        lemma_output_grows_with_payment(
            p,
            q,
            reserve_in as int,
            reserve_out as int,
            v2_out(amount_in, reserve_in, reserve_out, high_fee) as int,
            v2_out(amount_in, reserve_in, reserve_out, low_fee) as int,
        );
    }
}

/// Of two payments into the same pool, the larger one gives at least as much.
proof fn lemma_output_grows_with_payment(p: int, q: int, x: int, y: int, small: int, large: int)
    requires
        0 <= p <= q,
        x > 0,
        y > 0,
        small >= 0,
        small * (x * 10_000 + p) <= p * y,
        q * y < (large + 1) * (x * 10_000 + q),
    ensures
        small <= large,
{
    if small > large {
        let z = x * 10_000;
        assert(small * (z + q) >= (large + 1) * (z + q)) by (nonlinear_arith)
            requires
                small >= large + 1,
                z + q >= 0,
        ;
        // What the smaller payment gives would be too much for the larger one too.
        assert(q * y < small * (z + q));
        assert(small * z <= p * (y - small)) by (nonlinear_arith)
            requires
                small * (z + p) <= p * y,
        ;
        assert(q * (y - small) < small * z) by (nonlinear_arith)
            requires
                q * y < small * (z + q),
        ;
        assert(y - small >= 0) by {
            if small > y {
                assert(small * (z + p) > p * y) by (nonlinear_arith)
                    requires
                        small > y,
                        y > 0,
                        z > 0,
                        p >= 0,
                ;
            }
        }
        assert(p * (y - small) <= q * (y - small)) by (nonlinear_arith)
            requires
                p <= q,
                y - small >= 0,
        ;
    }
}

/// Going there and back through two constant-product pools with the same reserves
/// never gains anything: only a difference of prices can.
pub proof fn law_no_gain_without_price_difference(
    amount_in: nat,
    reserve_start: nat,
    reserve_mid: nat,
    first_fee: nat,
    second_fee: nat,
)
    requires
        first_fee < 10_000,
        second_fee < 10_000,
    ensures
        v2_out(
            v2_out(amount_in, reserve_start, reserve_mid, first_fee),
            reserve_mid,
            reserve_start,
            second_fee,
        ) <= amount_in,
{
    if reserve_start > 0 && reserve_mid > 0 {
        let a = amount_in as int;
        let x = reserve_start as int;
        let y = reserve_mid as int;
        let mid = v2_out(amount_in, reserve_start, reserve_mid, first_fee) as int;
        let back = v2_out(mid as nat, reserve_mid, reserve_start, second_fee) as int;
        law_trade_keeps_product(amount_in, reserve_start, reserve_mid, first_fee);
        law_trade_keeps_product(mid as nat, reserve_mid, reserve_start, second_fee);
        assert(mid * x + mid * a <= a * y) by (nonlinear_arith)
            requires
                (x + a) * (y - mid) >= x * y,
        ;
        assert(back * y + back * mid <= mid * x) by (nonlinear_arith)
            requires
                (y + mid) * (x - back) >= y * x,
        ;
        assert(back <= a) by (nonlinear_arith)
            requires
                mid * x + mid * a <= a * y,
                back * y + back * mid <= mid * x,
                mid >= 0,
                back >= 0,
                a >= 0,
                y > 0,
        ;
    }
}

/// With reserves of 112 bits, which is all that a pair contract holds, every
/// quote for an amount of 128 bits can be computed.
pub proof fn law_pair_quotes_fit(amount_in: nat, reserve_in: nat, reserve_out: nat, fee_bps: nat)
    requires
        amount_in < 0x1_0000000000000000_0000000000000000nat,
        reserve_in < 0x1_0000000000000000_000000000000nat,
        reserve_out < 0x1_0000000000000000_000000000000nat,
    ensures
        v2_fits(amount_in, reserve_in, reserve_out, fee_bps),
{
    if fee_bps < 10_000 {
        let paid = v2_after_fee(amount_in, fee_bps);
        let keep = (10_000 - fee_bps) as nat;
        assert(amount_in * keep <= 0x1_0000000000000000_0000000000000000 * 10_000)
            by (nonlinear_arith)
            requires
                amount_in < 0x1_0000000000000000_0000000000000000nat,
                keep <= 10_000,
        ;
        assert(paid * reserve_out <= 0x1_0000000000000000_0000000000000000 * 10_000
            * 0x1_0000000000000000_000000000000) by (nonlinear_arith)
            requires
                paid <= 0x1_0000000000000000_0000000000000000 * 10_000,
                reserve_out < 0x1_0000000000000000_000000000000nat,
        ;
    }
}

/// A larger trade gets no better price than a smaller one, up to the one unit by
/// which the smaller output may have been rounded down.
pub proof fn law_larger_trade_gets_no_better_price(
    small: nat,
    large: nat,
    reserve_in: nat,
    reserve_out: nat,
    fee_bps: nat,
)
    requires
        small <= large,
        fee_bps < 10_000,
    ensures
        v2_out(large, reserve_in, reserve_out, fee_bps) * small <= (v2_out(
            small,
            reserve_in,
            reserve_out,
            fee_bps,
        ) + 1) * large,
{
    let got_small = v2_out(small, reserve_in, reserve_out, fee_bps) as int;
    let got_large = v2_out(large, reserve_in, reserve_out, fee_bps) as int;
    if reserve_in == 0 || reserve_out == 0 {
        assert((got_small + 1) * large >= 0) by (nonlinear_arith)
            requires
                got_small >= 0,
                large >= 0,
        ;
        assert(got_large * small == 0) by (nonlinear_arith)
            requires
                got_large == 0,
        ;
    } else {
        lemma_v2_out(small, reserve_in, reserve_out, fee_bps);
        lemma_v2_out(large, reserve_in, reserve_out, fee_bps);
        let keep = (10_000 - fee_bps) as int;
        let z = reserve_in as int * 10_000;
        let y = reserve_out as int;
        let p = small as int * keep;
        let q = large as int * keep;
        assert(p <= q) by (nonlinear_arith)
            requires
                p == small * keep,
                q == large * keep,
                small <= large,
                keep > 0,
        ;
        // Both outputs measured against the larger denominator.
        assert(got_large * (z + q) * small <= q * y * small) by (nonlinear_arith)
            requires
                got_large * (z + q) <= q * y,
                small >= 0,
        ;
        assert(q * y * small == p * y * large) by (nonlinear_arith)
            requires
                p == small * keep,
                q == large * keep,
        ;
        assert(p * y * large <= (got_small + 1) * (z + p) * large) by (nonlinear_arith)
            requires
                p * y < (got_small + 1) * (z + p),
                large >= 0,
        ;
        assert((got_small + 1) * (z + p) * large <= (got_small + 1) * (z + q) * large)
            by (nonlinear_arith)
            requires
                p <= q,
                got_small >= 0,
                large >= 0,
        ;
        assert(got_large * small <= (got_small + 1) * large) by (nonlinear_arith)
            requires
                got_large * (z + q) * small <= (got_small + 1) * (z + q) * large,
                z + q > 0,
        ;
    }
}

/// The token that comes out is the other one of the pool: the two tokens are each
/// other's, and no other token is traded.
pub proof fn law_other_token(token0: Address, token1: Address, token_in: Address)
    ensures
        spec_other_token(token0, token1, token0) == Some(token1),
        spec_other_token(token0, token1, token1) == Some(token0),
        token_in != token0 && token_in != token1 ==> spec_other_token(token0, token1, token_in)
            is None,
{
}

/// The constant-product quote: with something to trade on both sides and a fee that
/// leaves something, the output is the largest number for which output times
/// (reserve in and what is left of the input) does not exceed what is left of the
/// input times reserve out, everything counted in ten-thousandths.
pub proof fn law_constant_product_quote(
    amount_in: nat,
    reserve_in: nat,
    reserve_out: nat,
    fee_bps: nat,
)
    requires
        amount_in > 0,
        reserve_in > 0,
        reserve_out > 0,
    ensures
        fee_bps >= 10_000 ==> v2_result(amount_in, reserve_in, reserve_out, fee_bps) == Err::<
            nat,
            QuoteFault,
        >(QuoteFault::FeeTooHigh),
        fee_bps < 10_000 ==> {
            let out = v2_out(amount_in, reserve_in, reserve_out, fee_bps);
            let left = amount_in * (10_000 - fee_bps);
            &&& v2_result(amount_in, reserve_in, reserve_out, fee_bps) == Ok::<nat, QuoteFault>(out)
            &&& out * (reserve_in * 10_000 + left) <= left * reserve_out
            &&& left * reserve_out < (out + 1) * (reserve_in * 10_000 + left)
        },
{
    if fee_bps < 10_000 {
        lemma_v2_out(amount_in, reserve_in, reserve_out, fee_bps);
    }
}

/// A constant-product quote can be computed exactly where there is nothing to
/// compute, or where what is left of the input times the reserve, and the sum that it
/// is divided by, are below two to the power of 256.
pub proof fn law_when_a_quote_fits(
    amount_in: nat,
    reserve_in: nat,
    reserve_out: nat,
    fee_bps: nat,
)
    ensures
        v2_fits(amount_in, reserve_in, reserve_out, fee_bps) <==> {
            ||| amount_in == 0
            ||| reserve_in == 0
            ||| reserve_out == 0
            ||| fee_bps >= 10_000
            ||| amount_in * (10_000 - fee_bps) * reserve_out < pow2(256) && reserve_in * 10_000
                + amount_in * (10_000 - fee_bps) < pow2(256)
        },
{
    law_amounts_have_256_bits();
}

/// A quote stands for its fields, and an error for what it speaks of.
pub proof fn law_quotes_stand_for_their_fields(quote: Quote, error: QuoteError)
    ensures
        quote@.pool_name == quote.pool_name@,
        quote@.kind == quote.kind,
        quote@.token_in == quote.token_in,
        quote@.token_out == quote.token_out,
        quote@.amount_in == quote.amount_in@,
        quote@.amount_out == quote.amount_out@,
        error matches QuoteError::TokenNotInPair { token } ==> error@ == (
        QuoteFault::TokenNotInPair { token }) && error@.text() == "token "@ + token.spec_text()
            + " is not in configured V2 pair"@,
        error matches QuoteError::TokenNotInPool { token, token0, token1 } ==> error@ == (
        QuoteFault::TokenNotInPool { token, token0, token1 }) && error@.text() == "token "@
            + token.spec_text() + " is not in pool "@ + token0.spec_text() + "/"@
            + token1.spec_text(),
        error matches QuoteError::Rpc { message } ==> error@ == (QuoteFault::Rpc {
            message: message@,
        }) && error@.text() == message@,
        error is FeeTooHigh <==> error@ is FeeTooHigh,
{
}

/// An outcome is right exactly where it has the amount, or the error, that is due.
pub proof fn law_right_outcomes(
    amount: Result<U256, QuoteError>,
    quote: Result<Quote, QuoteError>,
    n: nat,
    view: QuoteView,
    fault: QuoteFault,
)
    ensures
        amount_is(amount, Ok(n)) <==> (amount is Ok && amount->Ok_0@ == n),
        amount_is(amount, Err(fault)) <==> (amount is Err && amount->Err_0@ == fault),
        quote_is(quote, Ok(view)) <==> (quote is Ok && quote->Ok_0@ == view),
        quote_is(quote, Err(fault)) <==> (quote is Err && quote->Err_0@ == fault),
{
}

/// A constant-product pool is asked for the reserves of its pair; any other pool has
/// its quoter asked, for the very token, amount and fee tier, for the other token of
/// the pool and without a price limit.
pub proof fn law_what_a_pool_is_asked(
    pool: PoolConfig,
    token_in: Address,
    amount_in: nat,
    request: QuoteRequest,
)
    requires
        request_asks(pool, token_in, amount_in, request),
    ensures
        pool matches PoolConfig::V2 { pair, .. } ==> request == (QuoteRequest::Reserves { pair }),
        pool matches PoolConfig::V3 { quoter, token0, token1, fee, .. } ==> {
            &&& request is ExactInputSingle
            &&& request->quoter == quoter
            &&& request->ExactInputSingle_token_in == token_in
            &&& token_in == token0 ==> request->token_out == token1
            &&& token_in != token0 ==> token_in == token1 && request->token_out == token0
            &&& request->ExactInputSingle_fee == fee
            &&& request->ExactInputSingle_amount_in@ == amount_in
            &&& request->sqrt_price_limit@ == 0
        },
{
}

/// A reply answers a pool exactly where it is of the kind that the pool is asked for,
/// or says that there is none.
pub proof fn law_what_answers_a_pool(pool: PoolConfig, reply: QuoteReply)
    ensures
        reply is Failed ==> reply_answers(pool, reply),
        reply is Reserves ==> (reply_answers(pool, reply) <==> pool is V2),
        reply is AmountOut ==> (reply_answers(pool, reply) <==> pool is V3),
{
}

/// A failed request is a failed quote, with its message, on every pool. It can always
/// be taken.
pub proof fn law_failed_request_fails_quote(
    pool: PoolConfig,
    token_in: Address,
    amount_in: nat,
    message: String,
)
    ensures
        reply_fits(pool, token_in, amount_in, QuoteReply::Failed { message }),
        quote_result(pool, token_in, amount_in, QuoteReply::Failed { message }) == Err::<
            QuoteView,
            QuoteFault,
        >(QuoteFault::Rpc { message: message@ }),
{
}

/// A constant-product pool is quoted from its reserves, the reserve of the token that
/// goes in as what goes in, and gives out its other token. A token that it does not
/// trade is refused.
pub proof fn law_pair_is_quoted_from_reserves(
    pool: PoolConfig,
    token_in: Address,
    amount_in: nat,
    reserve0: u128,
    reserve1: u128,
)
    requires
        pool is V2,
    ensures
        ({
            let reply = QuoteReply::Reserves { reserve0, reserve1 };
            let result = quote_result(pool, token_in, amount_in, reply);
            let (x, y, token_out) = if token_in == pool->V2_token0 {
                (reserve0 as nat, reserve1 as nat, pool->V2_token1)
            } else {
                (reserve1 as nat, reserve0 as nat, pool->V2_token0)
            };
            if token_in != pool->V2_token0 && token_in != pool->V2_token1 {
                &&& reply_fits(pool, token_in, amount_in, reply)
                &&& result == Err::<QuoteView, QuoteFault>(
                    QuoteFault::TokenNotInPair { token: token_in },
                )
            } else {
                &&& reply_fits(pool, token_in, amount_in, reply) <==> v2_fits(
                    amount_in,
                    x,
                    y,
                    pool->fee_bps as nat,
                )
                &&& v2_result(amount_in, x, y, pool->fee_bps as nat) matches Err(fault) ==> result
                    == Err::<QuoteView, QuoteFault>(fault)
                &&& v2_result(amount_in, x, y, pool->fee_bps as nat) matches Ok(out) ==> {
                    &&& result is Ok
                    &&& result->Ok_0.pool_name == pool->V2_name@
                    &&& result->Ok_0.kind == DexKind::V2
                    &&& result->Ok_0.token_in == token_in
                    &&& result->Ok_0.token_out == token_out
                    &&& result->Ok_0.amount_in == amount_in
                    &&& result->Ok_0.amount_out == out
                }
            }
        }),
{
}

/// Any other pool is quoted at what its quoter answered, and gives out its other
/// token. A token that it does not trade is refused.
pub proof fn law_quoter_decides_quote(
    pool: PoolConfig,
    token_in: Address,
    amount_in: nat,
    amount: U256,
)
    requires
        pool is V3,
    ensures
        ({
            let reply = QuoteReply::AmountOut { amount };
            let result = quote_result(pool, token_in, amount_in, reply);
            &&& reply_fits(pool, token_in, amount_in, reply)
            &&& if token_in != pool->V3_token0 && token_in != pool->V3_token1 {
                result == Err::<QuoteView, QuoteFault>(
                    QuoteFault::TokenNotInPool {
                        token: token_in,
                        token0: pool->V3_token0,
                        token1: pool->V3_token1,
                    },
                )
            } else {
                &&& result is Ok
                &&& result->Ok_0.pool_name == pool->V3_name@
                &&& result->Ok_0.kind == DexKind::V3
                &&& result->Ok_0.token_in == token_in
                &&& token_in == pool->V3_token0 ==> result->Ok_0.token_out == pool->V3_token1
                &&& token_in != pool->V3_token0 ==> result->Ok_0.token_out == pool->V3_token0
                &&& result->Ok_0.amount_in == amount_in
                &&& result->Ok_0.amount_out == amount@
            }
        }),
{
}

} // verus!
