//! What a route earns, and whether that is enough.

use crate::config::{BotConfig, PoolConfig};
use crate::dex::{Quote, QuoteError, QuoteFault, QuoteView};
use crate::opportunity::{leg_from_pool, pool_leg, ExecutionLeg, Opportunity, OpportunityView};
use crate::types::{parse_units, u256_limit, Address, U256};
use vstd::prelude::*;

verus! {

/// `n`, or the largest `i128` where `n` is larger.
pub open spec fn saturated(n: nat) -> int {
    if n > i128::MAX {
        i128::MAX as int
    } else {
        n as int
    }
}

/// How much `a` exceeds `b`, or minus how much it falls short, saturated.
pub open spec fn delta(a: nat, b: nat) -> int {
    if a >= b {
        saturated((a - b) as nat)
    } else {
        -saturated((b - a) as nat)
    }
}

/// `value` as a signed number; what is too large becomes the largest one.
pub fn u256_to_i128(value: U256) -> (r: i128)
    ensures
        r == saturated(value@),
{
    let max = U256::from_u128(i128::MAX as u128);
    if value > max {
        i128::MAX
    } else {
        value.low_u128() as i128
    }
}

/// How much `a` exceeds `b`, or minus how much it falls short.
pub fn u256_delta(a: U256, b: U256) -> (r: i128)
    ensures
        r == delta(a@, b@),
{
    if a >= b {
        u256_to_i128(a.checked_sub(b).unwrap())
    } else {
        -u256_to_i128(b.checked_sub(a).unwrap())
    }
}

/// Whether gas is paid in `token_start`.
pub open spec fn pays_gas(cfg: BotConfig, token_start: Address) -> bool {
    cfg.native_wrapped_token == Some(token_start)
}

/// What an execution is expected to cost in gas, in wei.
pub open spec fn gas_cost(cfg: BotConfig) -> nat {
    cfg.gas_limit as nat * (cfg.max_gas_price_gwei as nat * 1_000_000_000)
}

/// The profit that is left of `gross_profit`: gas is deducted exactly where it is
/// paid in the token that the profit is counted in.
pub open spec fn net_profit(cfg: BotConfig, token_start: Address, gross_profit: int) -> int {
    if pays_gas(cfg, token_start) {
        gross_profit - saturated(gas_cost(cfg))
    } else {
        gross_profit
    }
}

/// Deducts the expected gas from `gross_profit` where it is paid in the start
/// token, and says whether it was deducted.
pub fn apply_gas_cost(cfg: &BotConfig, token_start: Address, gross_profit: i128) -> (r: (
    i128,
    bool,
))
    requires
        net_profit(*cfg, token_start, gross_profit as int) >= i128::MIN,
    ensures
        r.0 == net_profit(*cfg, token_start, gross_profit as int),
        r.1 == pays_gas(*cfg, token_start),
{
    if cfg.native_wrapped_token != Some(token_start) {
        return (gross_profit, false);
    }
    let gas_price = parse_units(cfg.max_gas_price_gwei, "gwei");
    proof {
        assert(cfg.gas_limit as nat * (cfg.max_gas_price_gwei as nat * 1_000_000_000)
            < u256_limit()) by (nonlinear_arith)
            requires
                cfg.gas_limit as nat <= 0xffff_ffff_ffff_ffff,
                cfg.max_gas_price_gwei as nat <= 0xffff_ffff_ffff_ffff,
                u256_limit()
                    == 0x1_0000000000000000_0000000000000000_0000000000000000_0000000000000000nat,
        ;
    }
    let cost = U256::from(cfg.gas_limit).checked_mul(gas_price).unwrap();
    (gross_profit - u256_to_i128(cost), true)
}

/// `a / b` for a positive `b`, rounded toward zero.
pub open spec fn toward_zero(a: int, b: int) -> int {
    if a >= 0 {
        a / b
    } else {
        -((-a) / b)
    }
}

/// A profit in hundredths of a percent of the input, rounded toward zero.
pub open spec fn profit_bps(profit: int, amount_in: nat) -> int {
    toward_zero(profit * 10_000, saturated(amount_in))
}

/// The figures of a route that was quoted to its end.
pub struct FiguresView {
    pub amount_after_first: nat,
    pub token_mid: Address,
    pub amount_out: nat,
    pub gross_profit: int,
}

/// The figures of a route that was quoted to its end.
#[derive(Clone, Copy, Debug)]
pub struct RouteFigures {
    /// How much the first swap gives.
    pub amount_after_first: U256,
    /// The token in between.
    pub token_mid: Address,
    /// How much comes out.
    pub amount_out: U256,
    /// The profit before gas, or minus the loss.
    pub gross_profit: i128,
}

impl View for RouteFigures {
    type V = FiguresView;

    open spec fn view(&self) -> FiguresView {
        FiguresView {
            amount_after_first: self.amount_after_first@,
            token_mid: self.token_mid,
            amount_out: self.amount_out@,
            gross_profit: self.gross_profit as int,
        }
    }
}

/// The model of what became of a route.
pub enum Verdict {
    QuoteFailed { fault: QuoteFault },
    FirstQuoteZero,
    NotClosed { figures: FiguresView, token_out: Address },
    NotGrossProfitable { figures: FiguresView, token_out: Address },
    BelowThreshold {
        figures: FiguresView,
        estimated_net_profit: int,
        profit_bps: int,
        gas_adjusted: bool,
    },
    Profitable { opportunity: OpportunityView },
}

impl Verdict {
    /// The short name under which the outcome is logged.
    pub open spec fn spec_reason(self) -> Seq<char> {
        match self {
            Verdict::QuoteFailed { .. } => "quote_error"@,
            Verdict::FirstQuoteZero => "first_quote_zero"@,
            Verdict::NotClosed { .. } => "route_not_closed"@,
            Verdict::NotGrossProfitable { .. } => "not_gross_profitable"@,
            Verdict::BelowThreshold { .. } => "below_min_profit_bps"@,
            Verdict::Profitable { .. } => "profitable"@,
        }
    }
}

/// What became of a route.
#[derive(Debug)]
pub enum RouteOutcome {
    /// One of the two quotes could not be had.
    QuoteFailed { error: QuoteError },
    /// The first swap gives nothing.
    FirstQuoteZero,
    /// The route does not end with the token that it started with.
    NotClosed { figures: RouteFigures, token_out: Address },
    /// The route does not end with more than it started with.
    NotGrossProfitable { figures: RouteFigures, token_out: Address },
    /// The profit is below the configured threshold.
    BelowThreshold {
        figures: RouteFigures,
        estimated_net_profit: i128,
        profit_bps: i128,
        gas_adjusted: bool,
    },
    /// The route is worth taking.
    Profitable { opportunity: Opportunity },
}

impl View for RouteOutcome {
    type V = Verdict;

    open spec fn view(&self) -> Verdict {
        match *self {
            RouteOutcome::QuoteFailed { error } => Verdict::QuoteFailed { fault: error@ },
            RouteOutcome::FirstQuoteZero => Verdict::FirstQuoteZero,
            RouteOutcome::NotClosed { figures, token_out } => Verdict::NotClosed {
                figures: figures@,
                token_out,
            },
            RouteOutcome::NotGrossProfitable { figures, token_out } => Verdict::NotGrossProfitable {
                figures: figures@,
                token_out,
            },
            RouteOutcome::BelowThreshold {
                figures,
                estimated_net_profit,
                profit_bps,
                gas_adjusted,
            } => Verdict::BelowThreshold {
                figures: figures@,
                estimated_net_profit: estimated_net_profit as int,
                profit_bps: profit_bps as int,
                gas_adjusted,
            },
            RouteOutcome::Profitable { opportunity } => Verdict::Profitable {
                opportunity: opportunity@,
            },
        }
    }
}

impl RouteOutcome {
    /// The short name under which the outcome is logged.
    pub fn reason(&self) -> (r: &'static str)
        ensures
            r@ == self@.spec_reason(),
    {
        match self {
            RouteOutcome::QuoteFailed { .. } => "quote_error",
            RouteOutcome::FirstQuoteZero => "first_quote_zero",
            RouteOutcome::NotClosed { .. } => "route_not_closed",
            RouteOutcome::NotGrossProfitable { .. } => "not_gross_profitable",
            RouteOutcome::BelowThreshold { .. } => "below_min_profit_bps",
            RouteOutcome::Profitable { .. } => "profitable",
        }
    }
}

/// Whether the profit of a route that turns `amount_in` into `amount_out` is an
/// `i128` when it is counted in ten-thousandths.
pub open spec fn scaled_profit_fits(
    cfg: BotConfig,
    token_start: Address,
    amount_in: nat,
    amount_out: nat,
) -> bool {
    i128::MIN <= net_profit(cfg, token_start, delta(amount_out, amount_in)) * 10_000 <= i128::MAX
}

/// Whether the profit of a route that turns `amount_in` into `amount_out` of
/// `token_start` can be computed: something goes in, and the profit in
/// ten-thousandths is an `i128`.
pub open spec fn profit_fits(
    cfg: BotConfig,
    token_start: Address,
    amount_in: nat,
    amount_out: nat,
) -> bool {
    amount_in > 0 && scaled_profit_fits(cfg, token_start, amount_in, amount_out)
}

/// Whether a route whose second quote is `second` can be evaluated.
pub open spec fn route_fits(
    cfg: BotConfig,
    token_start: Address,
    amount_in: nat,
    second: QuoteView,
) -> bool {
    second.token_out == token_start && second.amount_out > amount_in ==> profit_fits(
        cfg,
        token_start,
        amount_in,
        second.amount_out,
    )
}

/// What becomes of a route through `first_pool` and `second_pool` that was quoted
/// `first` and then `second`: it has to come back to its token with more than
/// went in, and what is left after gas has to reach the threshold.
pub open spec fn evaluation(
    cfg: BotConfig,
    first_pool: PoolConfig,
    second_pool: PoolConfig,
    token_start: Address,
    amount_in: nat,
    first: QuoteView,
    second: QuoteView,
    unix_ts: u64,
) -> Verdict {
    let gross = delta(second.amount_out, amount_in);
    let figures = FiguresView {
        amount_after_first: first.amount_out,
        token_mid: first.token_out,
        amount_out: second.amount_out,
        gross_profit: gross,
    };
    let net = net_profit(cfg, token_start, gross);
    let bps = profit_bps(net, amount_in);
    if second.token_out != token_start {
        Verdict::NotClosed { figures, token_out: second.token_out }
    } else if second.amount_out <= amount_in {
        Verdict::NotGrossProfitable { figures, token_out: second.token_out }
    } else if bps < cfg.min_profit_bps {
        Verdict::BelowThreshold {
            figures,
            estimated_net_profit: net,
            profit_bps: bps,
            gas_adjusted: pays_gas(cfg, token_start),
        }
    } else {
        Verdict::Profitable {
            opportunity: OpportunityView {
                first_pool: first_pool.spec_name(),
                second_pool: second_pool.spec_name(),
                token_start,
                token_mid: first.token_out,
                amount_in,
                amount_after_first: first.amount_out,
                amount_out: second.amount_out,
                gross_profit_wei: gross,
                estimated_net_profit_wei: net,
                profit_bps: bps,
                gas_adjusted: pays_gas(cfg, token_start),
                unix_ts,
                legs: seq![
                    pool_leg(first_pool, token_start, first.token_out),
                    pool_leg(second_pool, first.token_out, token_start),
                ],
            },
        }
    }
}

/// What is left after gas is no more than the gross profit, and no more than the
/// largest `i128` below it.
pub proof fn lemma_net_profit_bounds(cfg: BotConfig, token_start: Address, gross_profit: int)
    ensures
        net_profit(cfg, token_start, gross_profit) <= gross_profit,
        net_profit(cfg, token_start, gross_profit) >= gross_profit - i128::MAX,
{
    assert(gas_cost(cfg) >= 0) by (nonlinear_arith);
}

/// Whether the profit of a route that turns `amount_in` into `amount_out` of
/// `token_start` can be counted in ten-thousandths.
pub fn scaled_profit_in_range(
    cfg: &BotConfig,
    token_start: Address,
    amount_in: U256,
    amount_out: U256,
) -> (r: bool)
    requires
        amount_out@ > amount_in@,
    ensures
        r == scaled_profit_fits(*cfg, token_start, amount_in@, amount_out@),
{
    let gross_profit = u256_delta(amount_out, amount_in);
    proof {
        lemma_net_profit_bounds(*cfg, token_start, gross_profit as int);
    }
    let (net, _) = apply_gas_cost(cfg, token_start, gross_profit);
    net <= i128::MAX / 10_000 && net >= i128::MIN / 10_000
}

/// What becomes of a route that was quoted `first` and then `second`.
pub fn evaluate_route(
    cfg: &BotConfig,
    first_pool: &PoolConfig,
    second_pool: &PoolConfig,
    token_start: Address,
    amount_in: U256,
    first: &Quote,
    second: &Quote,
    unix_ts: u64,
) -> (r: RouteOutcome)
    requires
        route_fits(*cfg, token_start, amount_in@, second@),
    ensures
        r@ == evaluation(
            *cfg,
            *first_pool,
            *second_pool,
            token_start,
            amount_in@,
            first@,
            second@,
            unix_ts,
        ),
        r is NotClosed <==> second.token_out != token_start,
        r is NotGrossProfitable <==> second.token_out == token_start && second.amount_out@
            <= amount_in@,
        r matches RouteOutcome::BelowThreshold { profit_bps, .. } ==> profit_bps
            < cfg.min_profit_bps,
        r matches RouteOutcome::Profitable { opportunity } ==> {
            &&& opportunity.profit_bps >= cfg.min_profit_bps
            &&& opportunity.amount_in@ == amount_in@
            &&& opportunity.amount_after_first@ == first.amount_out@
            &&& opportunity.amount_out@ == second.amount_out@
        },
{
    let gross_profit = u256_delta(second.amount_out, amount_in);
    let figures = RouteFigures {
        amount_after_first: first.amount_out,
        token_mid: first.token_out,
        amount_out: second.amount_out,
        gross_profit,
    };
    if second.token_out != token_start {
        return RouteOutcome::NotClosed { figures, token_out: second.token_out };
    }
    if second.amount_out <= amount_in {
        return RouteOutcome::NotGrossProfitable { figures, token_out: second.token_out };
    }
    proof {
        lemma_net_profit_bounds(*cfg, token_start, gross_profit as int);
    }
    let (estimated_net_profit, gas_adjusted) = apply_gas_cost(cfg, token_start, gross_profit);
    let profit_bps = estimated_net_profit * 10_000 / u256_to_i128(amount_in);
    if profit_bps < cfg.min_profit_bps as i128 {
        return RouteOutcome::BelowThreshold {
            figures,
            estimated_net_profit,
            profit_bps,
            gas_adjusted,
        };
    }
    let mut legs: Vec<ExecutionLeg> = Vec::new();
    legs.push(leg_from_pool(first_pool, token_start, first.token_out));
    legs.push(leg_from_pool(second_pool, first.token_out, token_start));
    let opportunity = Opportunity {
        first_pool: first_pool.name().to_owned(),
        second_pool: second_pool.name().to_owned(),
        token_start,
        token_mid: first.token_out,
        amount_in,
        amount_after_first: first.amount_out,
        amount_out: second.amount_out,
        gross_profit_wei: gross_profit,
        estimated_net_profit_wei: estimated_net_profit,
        profit_bps,
        gas_adjusted,
        unix_ts,
        legs,
    };
    assert(opportunity@.legs =~= seq![
        pool_leg(*first_pool, token_start, first.token_out),
        pool_leg(*second_pool, first.token_out, token_start),
    ]);
    RouteOutcome::Profitable { opportunity }
}

/// Saturation keeps what fits and otherwise gives the largest `i128`.
pub proof fn law_saturation(n: nat)
    ensures
        n <= 0x7fff_ffff_ffff_ffff_ffff_ffff_ffff_ffff ==> saturated(n) == n,
        n > 0x7fff_ffff_ffff_ffff_ffff_ffff_ffff_ffff ==> saturated(n)
            == 0x7fff_ffff_ffff_ffff_ffff_ffff_ffff_ffff,
{
}

/// The difference of two amounts is exact where it fits, saturates at both ends, and
/// changes its sign with the order of the amounts.
pub proof fn law_difference_of_amounts(a: nat, b: nat)
    ensures
        -0x7fff_ffff_ffff_ffff_ffff_ffff_ffff_ffff <= a - b
            <= 0x7fff_ffff_ffff_ffff_ffff_ffff_ffff_ffff ==> delta(a, b) == a - b,
        a - b > 0x7fff_ffff_ffff_ffff_ffff_ffff_ffff_ffff ==> delta(a, b)
            == 0x7fff_ffff_ffff_ffff_ffff_ffff_ffff_ffff,
        delta(b, a) == -delta(a, b),
{
}

/// Gas is deducted exactly where the start token is the wrapped native token: the gas
/// limit times the gas price of that many thousand million wei, saturated.
pub proof fn law_gas_is_deducted_from_native_profit(
    cfg: BotConfig,
    token_start: Address,
    gross_profit: int,
)
    ensures
        pays_gas(cfg, token_start) <==> cfg.native_wrapped_token is Some
            && cfg.native_wrapped_token->0 == token_start,
        !pays_gas(cfg, token_start) ==> net_profit(cfg, token_start, gross_profit) == gross_profit,
        pays_gas(cfg, token_start) ==> {
            let cost = cfg.gas_limit * cfg.max_gas_price_gwei * 1_000_000_000;
            &&& cost <= 0x7fff_ffff_ffff_ffff_ffff_ffff_ffff_ffff ==> net_profit(
                cfg,
                token_start,
                gross_profit,
            ) == gross_profit - cost
            &&& cost > 0x7fff_ffff_ffff_ffff_ffff_ffff_ffff_ffff ==> net_profit(
                cfg,
                token_start,
                gross_profit,
            ) == gross_profit - 0x7fff_ffff_ffff_ffff_ffff_ffff_ffff_ffff
        },
        gas_cost(cfg) == cfg.gas_limit * cfg.max_gas_price_gwei * 1_000_000_000,
{
    let limit = cfg.gas_limit as int;
    let price = cfg.max_gas_price_gwei as int;
    assert(limit * (price * 1_000_000_000) == limit * price * 1_000_000_000) by (nonlinear_arith);
}

/// A profit in basis points is the profit in ten-thousandths divided by the input,
/// rounded toward zero, where the input counts as the largest `i128` at most.
pub proof fn law_basis_points_round_toward_zero(profit: int, amount_in: nat)
    requires
        amount_in > 0,
    ensures
        ({
            let bps = profit_bps(profit, amount_in);
            let input = if amount_in <= 0x7fff_ffff_ffff_ffff_ffff_ffff_ffff_ffff {
                amount_in as int
            } else {
                0x7fff_ffff_ffff_ffff_ffff_ffff_ffff_ffff
            };
            &&& profit >= 0 ==> 0 <= bps && bps * input <= profit * 10_000 < (bps + 1) * input
            &&& profit < 0 ==> bps <= 0 && (bps - 1) * input < profit * 10_000 <= bps * input
        }),
{
    let input = saturated(amount_in);
    let scaled = profit * 10_000;
    let magnitude = if scaled >= 0 {
        scaled
    } else {
        -scaled
    };
    let q = magnitude / input;
    vstd::arithmetic::div_mod::lemma_fundamental_div_mod(magnitude, input);
    vstd::arithmetic::div_mod::lemma_div_pos_is_pos(magnitude, input);
    assert(q * input <= magnitude < (q + 1) * input) by (nonlinear_arith)
        requires
            magnitude == input * q + magnitude % input,
            0 <= magnitude % input < input,
    ;
    assert((-q) * input == -(q * input)) by (nonlinear_arith);
    assert((-q - 1) * input == -((q + 1) * input)) by (nonlinear_arith);
}

/// A larger profit never counts for fewer basis points.
pub proof fn law_basis_points_grow_with_profit(small: int, large: int, amount_in: nat)
    requires
        amount_in > 0,
        small <= large,
    ensures
        profit_bps(small, amount_in) <= profit_bps(large, amount_in),
{
    law_basis_points_round_toward_zero(small, amount_in);
    law_basis_points_round_toward_zero(large, amount_in);
    let input = saturated(amount_in);
    let p = profit_bps(small, amount_in);
    let q = profit_bps(large, amount_in);
    if p > q {
        if large < 0 {
            assert(p * input <= 0 && (q + 1) * input <= p * input) by (nonlinear_arith)
                requires
                    q + 1 <= p <= 0,
                    input > 0,
            ;
            assert(large * 10_000 <= q * input);
            assert((p - 1) * input >= q * input) by (nonlinear_arith)
                requires
                    p - 1 >= q,
                    input > 0,
            ;
        } else if small >= 0 {
            assert(p * input >= (q + 1) * input) by (nonlinear_arith)
                requires
                    p >= q + 1,
                    input > 0,
            ;
        }
    }
}

/// What becomes of a route that was quoted to its end, on every pair of pools. It is
/// not closed where it ends with another token, and not profitable where no more
/// comes out than went in. Otherwise it is below the threshold exactly where the
/// profit after gas, in basis points, is less than the configured one; any other
/// route is reported, with the two quoted outputs and the swaps through its pools.
pub proof fn law_every_route_above_the_threshold_is_profitable(
    cfg: BotConfig,
    first_pool: PoolConfig,
    second_pool: PoolConfig,
    token_start: Address,
    amount_in: nat,
    first: QuoteView,
    second: QuoteView,
    unix_ts: u64,
)
    ensures
        ({
            let verdict = evaluation(
                cfg,
                first_pool,
                second_pool,
                token_start,
                amount_in,
                first,
                second,
                unix_ts,
            );
            let gross = delta(second.amount_out, amount_in);
            let net = net_profit(cfg, token_start, gross);
            let bps = profit_bps(net, amount_in);
            &&& verdict is NotClosed <==> second.token_out != token_start
            &&& verdict is NotGrossProfitable <==> second.token_out == token_start
                && second.amount_out <= amount_in
            &&& verdict is BelowThreshold <==> second.token_out == token_start
                && second.amount_out > amount_in && bps < cfg.min_profit_bps
            &&& verdict is Profitable <==> second.token_out == token_start && second.amount_out
                > amount_in && bps >= cfg.min_profit_bps
            &&& verdict matches Verdict::Profitable { opportunity: o } ==> {
                &&& o.first_pool == first_pool.spec_name()
                &&& o.second_pool == second_pool.spec_name()
                &&& o.token_start == token_start
                &&& o.token_mid == first.token_out
                &&& o.amount_in == amount_in
                &&& o.amount_after_first == first.amount_out
                &&& o.amount_out == second.amount_out
                &&& o.gross_profit_wei == gross
                &&& o.estimated_net_profit_wei == net
                &&& o.profit_bps == bps
                &&& o.gas_adjusted <==> cfg.native_wrapped_token == Some(token_start)
                &&& o.unix_ts == unix_ts
                &&& o.legs.len() == 2
                &&& o.legs[0] == pool_leg(first_pool, token_start, first.token_out)
                &&& o.legs[1] == pool_leg(second_pool, first.token_out, token_start)
            }
            &&& verdict matches Verdict::BelowThreshold {
                figures,
                estimated_net_profit,
                profit_bps,
                gas_adjusted,
            } ==> {
                &&& estimated_net_profit == net
                &&& profit_bps == bps
                &&& gas_adjusted <==> cfg.native_wrapped_token == Some(token_start)
                &&& figures.amount_after_first == first.amount_out
                &&& figures.token_mid == first.token_out
                &&& figures.amount_out == second.amount_out
                &&& figures.gross_profit == gross
            }
            &&& verdict matches Verdict::NotClosed { figures, token_out } ==> {
                &&& token_out == second.token_out
                &&& figures.amount_after_first == first.amount_out
                &&& figures.token_mid == first.token_out
                &&& figures.amount_out == second.amount_out
                &&& figures.gross_profit == gross
            }
            &&& verdict matches Verdict::NotGrossProfitable { figures, token_out } ==> {
                &&& token_out == token_start
                &&& figures.amount_after_first == first.amount_out
                &&& figures.token_mid == first.token_out
                &&& figures.amount_out == second.amount_out
                &&& figures.gross_profit == gross
            }
        }),
{
}

/// A route can be evaluated exactly where there is no profit to compute, or where
/// something goes in and ten thousand times the profit after gas is an `i128`.
pub proof fn law_when_a_route_can_be_evaluated(
    cfg: BotConfig,
    token_start: Address,
    amount_in: nat,
    second: QuoteView,
)
    ensures
        route_fits(cfg, token_start, amount_in, second) <==> {
            let net = net_profit(cfg, token_start, delta(second.amount_out, amount_in));
            ||| second.token_out != token_start
            ||| second.amount_out <= amount_in
            ||| amount_in > 0 && -0x8000_0000_0000_0000_0000_0000_0000_0000 <= net * 10_000
                <= 0x7fff_ffff_ffff_ffff_ffff_ffff_ffff_ffff
        },
        scaled_profit_fits(cfg, token_start, amount_in, second.amount_out) <==> {
            let net = net_profit(cfg, token_start, delta(second.amount_out, amount_in));
            -0x8000_0000_0000_0000_0000_0000_0000_0000 <= net * 10_000
                <= 0x7fff_ffff_ffff_ffff_ffff_ffff_ffff_ffff
        },
{
}

/// An outcome stands for its fields.
pub proof fn law_outcomes_stand_for_their_fields(outcome: RouteOutcome, f: RouteFigures)
    ensures
        f@.amount_after_first == f.amount_after_first@,
        f@.token_mid == f.token_mid,
        f@.amount_out == f.amount_out@,
        f@.gross_profit == f.gross_profit,
        outcome matches RouteOutcome::QuoteFailed { error } ==> outcome@ == (
        Verdict::QuoteFailed { fault: error@ }),
        outcome is FirstQuoteZero <==> outcome@ is FirstQuoteZero,
        outcome matches RouteOutcome::NotClosed { figures, token_out } ==> outcome@ == (
        Verdict::NotClosed { figures: figures@, token_out }),
        outcome matches RouteOutcome::NotGrossProfitable { figures, token_out } ==> outcome@ == (
        Verdict::NotGrossProfitable { figures: figures@, token_out }),
        outcome matches RouteOutcome::BelowThreshold {
            figures,
            estimated_net_profit,
            profit_bps,
            gas_adjusted,
        } ==> outcome@ == (Verdict::BelowThreshold {
            figures: figures@,
            estimated_net_profit: estimated_net_profit as int,
            profit_bps: profit_bps as int,
            gas_adjusted,
        }),
        outcome matches RouteOutcome::Profitable { opportunity } ==> outcome@ == (
        Verdict::Profitable { opportunity: opportunity@ }),
{
}

/// The name under which an outcome is logged says of which kind it is, whatever its
/// figures.
pub proof fn law_outcomes_are_named_by_kind(verdict: Verdict)
    ensures
        verdict is QuoteFailed ==> verdict.spec_reason() == "quote_error"@,
        verdict is FirstQuoteZero ==> verdict.spec_reason() == "first_quote_zero"@,
        verdict is NotClosed ==> verdict.spec_reason() == "route_not_closed"@,
        verdict is NotGrossProfitable ==> verdict.spec_reason() == "not_gross_profitable"@,
        verdict is BelowThreshold ==> verdict.spec_reason() == "below_min_profit_bps"@,
        verdict is Profitable ==> verdict.spec_reason() == "profitable"@,
{
}

} // verus!
