//! The call that takes an opportunity on the chain.

use crate::config::{BotConfig, ExecutorConfig};
use crate::opportunity::{ExecutionLeg, Opportunity};
use crate::types::{law_amounts_have_256_bits, u256_limit, Address, U256};
use vstd::arithmetic::power2::pow2;
use vstd::prelude::*;

verus! {

/// The least output that an execution accepts: the input and the least profit,
/// rounded down.
pub open spec fn least_output(amount_in: nat, min_profit_bps: nat) -> nat {
    (amount_in * (10_000 + min_profit_bps)) / 10_000
}

/// Whether the computation of the least output stays within 256 bits.
pub open spec fn least_output_fits(amount_in: nat, min_profit_bps: nat) -> bool {
    amount_in * (10_000 + min_profit_bps) < u256_limit()
}

/// The least output that an execution accepts, or nothing where the computation
/// would leave 256 bits.
pub fn checked_min_amount_out(amount_in: U256, min_profit_bps: u32) -> (r: Option<U256>)
    ensures
        r is Some <==> least_output_fits(amount_in@, min_profit_bps as nat),
        r matches Some(v) ==> v@ == least_output(amount_in@, min_profit_bps as nat),
{
    match amount_in.checked_mul(U256::from(10_000u64 + min_profit_bps as u64)) {
        Some(scaled) => scaled.checked_div(U256::from(10_000u64)),
        None => None,
    }
}

/// The least output that an execution accepts: the input and the least profit.
pub fn min_amount_out(amount_in: U256, min_profit_bps: u32) -> (r: U256)
    requires
        least_output_fits(amount_in@, min_profit_bps as nat),
    ensures
        r@ == least_output(amount_in@, min_profit_bps as nat),
{
    checked_min_amount_out(amount_in, min_profit_bps).unwrap()
}

/// A call of the executor contract.
#[derive(Debug)]
pub struct ExecutionCall {
    /// The executor contract.
    pub executor: Address,
    /// The swaps, in order.
    pub legs: Vec<ExecutionLeg>,
    /// How much goes in.
    pub amount_in: U256,
    /// How much has to come out.
    pub min_amount_out: U256,
    /// Until when the call is valid, in Unix seconds.
    pub deadline: U256,
}

/// Why there is nothing to call.
#[derive(Clone, Copy, Debug, PartialEq, Eq, Structural)]
pub enum ExecutorError {
    /// Nothing says how to execute.
    NotConfigured,
}

impl ExecutorError {
    /// How the error is explained to the operator.
    pub fn message(&self) -> (r: &'static str)
        ensures
            r@ == "live execution requested without executor config"@,
    {
        "live execution requested without executor config"
    }
}

/// What the configuration says about execution, or the error where it says nothing.
pub fn executor_config(cfg: &BotConfig) -> (r: Result<&ExecutorConfig, ExecutorError>)
    ensures
        match cfg.executor {
            Some(executor) => r matches Ok(e) && *e == executor,
            None => r matches Err(e) && e == ExecutorError::NotConfigured,
        },
{
    match &cfg.executor {
        Some(executor) => Ok(executor),
        None => Err(ExecutorError::NotConfigured),
    }
}

/// Whether the call for an opportunity can be computed.
pub open spec fn execution_fits(cfg: BotConfig, amount_in: nat, now: u64) -> bool {
    cfg.executor matches Some(executor) ==> {
        &&& least_output_fits(amount_in, cfg.min_profit_bps as nat)
        &&& now + executor.deadline_secs <= u64::MAX
    }
}

/// Whether the call for an opportunity can be computed.
pub fn execution_in_range(cfg: &BotConfig, opportunity: &Opportunity, now: u64) -> (r: bool)
    ensures
        r == execution_fits(*cfg, opportunity.amount_in@, now),
{
    match &cfg.executor {
        None => true,
        Some(executor) => checked_min_amount_out(
            opportunity.amount_in,
            cfg.min_profit_bps,
        ).is_some() && executor.deadline_secs <= u64::MAX - now,
    }
}

/// The call that takes an opportunity: its swaps, with the least profit as the
/// least output, valid for the configured time from `now` on.
pub fn execution_call(cfg: &BotConfig, opportunity: &Opportunity, now: u64) -> (r: Result<
    ExecutionCall,
    ExecutorError,
>)
    requires
        execution_fits(*cfg, opportunity.amount_in@, now),
    ensures
        match cfg.executor {
            None => r == Err::<ExecutionCall, ExecutorError>(ExecutorError::NotConfigured),
            Some(executor) => r matches Ok(call) && {
                &&& call.executor == executor.address
                &&& call.legs@ == opportunity.legs@
                &&& call.amount_in == opportunity.amount_in
                &&& call.min_amount_out@ == least_output(
                    opportunity.amount_in@,
                    cfg.min_profit_bps as nat,
                )
                &&& call.min_amount_out@ * 10_000 <= opportunity.amount_in@ * 10_000
                    + opportunity.amount_in@ * cfg.min_profit_bps < (call.min_amount_out@ + 1)
                    * 10_000
                &&& call.deadline@ == now + executor.deadline_secs
            },
        },
{
    proof {
        law_least_output(opportunity.amount_in@, cfg.min_profit_bps as nat);
    }
    let executor = match executor_config(cfg) {
        Ok(executor) => executor,
        Err(error) => {
            return Err(error);
        },
    };
    let mut legs: Vec<ExecutionLeg> = Vec::new();
    let mut i: usize = 0;
    while i < opportunity.legs.len()
        invariant
            i <= opportunity.legs.len(),
            legs@ == opportunity.legs@.take(i as int),
        decreases opportunity.legs.len() - i,
    {
        legs.push(opportunity.legs[i]);
        i += 1;
        assert(legs@ =~= opportunity.legs@.take(i as int));
    }
    assert(legs@ =~= opportunity.legs@);
    Ok(
        ExecutionCall {
            executor: executor.address,
            legs,
            amount_in: opportunity.amount_in,
            min_amount_out: min_amount_out(opportunity.amount_in, cfg.min_profit_bps),
            deadline: U256::from(now + executor.deadline_secs),
        },
    )
}

/// The least output of an execution is the input and the least profit in basis points,
/// rounded down: the largest number of which ten thousand times does not exceed the
/// input times ten thousand and the basis points.
pub proof fn law_least_output(amount_in: nat, min_profit_bps: nat)
    ensures
        ({
            let least = least_output(amount_in, min_profit_bps);
            let demanded = amount_in * 10_000 + amount_in * min_profit_bps;
            &&& least * 10_000 <= demanded < (least + 1) * 10_000
            &&& least >= amount_in
            &&& least_output_fits(amount_in, min_profit_bps) <==> demanded < pow2(256)
        }),
{
    law_amounts_have_256_bits();
    assert(amount_in * (10_000 + min_profit_bps) == amount_in * 10_000 + amount_in * min_profit_bps)
        by (nonlinear_arith);
    assert(amount_in * min_profit_bps >= 0) by (nonlinear_arith);
}

/// A call can be computed exactly where nothing is configured to call, or where the
/// least output can be computed and the deadline is a `u64`.
pub proof fn law_when_a_call_can_be_computed(cfg: BotConfig, amount_in: nat, now: u64)
    ensures
        execution_fits(cfg, amount_in, now) <==> {
            ||| cfg.executor is None
            ||| amount_in * 10_000 + amount_in * cfg.min_profit_bps < pow2(256) && now
                + cfg.executor->0.deadline_secs <= 0xffff_ffff_ffff_ffff
        },
{
    law_least_output(amount_in, cfg.min_profit_bps as nat);
}

} // verus!
