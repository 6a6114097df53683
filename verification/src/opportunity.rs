//! Routes worth taking, and the swaps that make them up.

use crate::config::PoolConfig;
use crate::types::{Address, H256, U256};
use vstd::prelude::*;

verus! {

/// One swap, as the executor contract takes it.
#[derive(Clone, Copy, Debug)]
pub struct ExecutionLeg {
    /// The kind of venue: 0 for V2, 1 for V3, 2 for Balancer V2.
    pub kind: u8,
    /// The contract that swaps.
    pub router: Address,
    /// The fee tier on V3, zero elsewhere.
    pub fee: u32,
    /// The pool on Balancer V2, zero elsewhere.
    pub pool_id: H256,
    /// The token that goes in.
    pub token_in: Address,
    /// The token that comes out.
    pub token_out: Address,
}

/// A kind of venue that the executor contract knows how to swap on.
#[derive(Clone, Copy, Debug)]
pub enum SwapVenue {
    /// Constant product.
    V2,
    /// Concentrated liquidity, with its fee tier.
    V3 { fee: u32 },
    /// A Balancer V2 pool.
    BalancerV2 { pool_id: H256 },
}

/// The swap of `token_in` for `token_out` on `venue`.
pub open spec fn spec_leg(
    venue: SwapVenue,
    router: Address,
    token_in: Address,
    token_out: Address,
) -> ExecutionLeg {
    let (kind, fee, pool_id) = match venue {
        SwapVenue::V2 => (0u8, 0u32, H256::spec_zero()),
        SwapVenue::V3 { fee } => (1u8, fee, H256::spec_zero()),
        SwapVenue::BalancerV2 { pool_id } => (2u8, 0u32, pool_id),
    };
    ExecutionLeg { kind, router, fee, pool_id, token_in, token_out }
}

/// The swap of `token_in` for `token_out` on `venue`.
pub fn leg_on(venue: SwapVenue, router: Address, token_in: Address, token_out: Address) -> (r:
    ExecutionLeg)
    ensures
        r == spec_leg(venue, router, token_in, token_out),
{
    let (kind, fee, pool_id): (u8, u32, H256) = match venue {
        SwapVenue::V2 => (0, 0, H256::zero()),
        SwapVenue::V3 { fee } => (1, fee, H256::zero()),
        SwapVenue::BalancerV2 { pool_id } => (2, 0, pool_id),
    };
    ExecutionLeg { kind, router, fee, pool_id, token_in, token_out }
}

/// The venue of a configured pool.
pub open spec fn venue(pool: PoolConfig) -> SwapVenue {
    match pool {
        PoolConfig::V2 { .. } => SwapVenue::V2,
        PoolConfig::V3 { fee, .. } => SwapVenue::V3 { fee },
    }
}

/// The swap of `token_in` for `token_out` through `pool`.
pub open spec fn pool_leg(pool: PoolConfig, token_in: Address, token_out: Address) -> ExecutionLeg {
    spec_leg(venue(pool), pool.spec_router(), token_in, token_out)
}

/// The swap of `token_in` for `token_out` through `pool`.
pub fn leg_from_pool(pool: &PoolConfig, token_in: Address, token_out: Address) -> (r: ExecutionLeg)
    ensures
        r == pool_leg(*pool, token_in, token_out),
        *pool matches PoolConfig::V2 { router, .. } ==> r.kind == 0 && r.fee == 0 && r.router
            == router,
        *pool matches PoolConfig::V3 { router, fee, .. } ==> r.kind == 1 && r.fee == fee && r.router
            == router,
        r.token_in == token_in,
        r.token_out == token_out,
{
    let venue = match pool {
        PoolConfig::V2 { .. } => SwapVenue::V2,
        PoolConfig::V3 { fee, .. } => SwapVenue::V3 { fee: *fee },
    };
    leg_on(venue, pool.router(), token_in, token_out)
}

/// Whether two pools trade the same two tokens, in whichever order.
pub open spec fn spec_same_token_pair(a: PoolConfig, b: PoolConfig) -> bool {
    ||| a.spec_token0() == b.spec_token0() && a.spec_token1() == b.spec_token1()
    ||| a.spec_token0() == b.spec_token1() && a.spec_token1() == b.spec_token0()
}

/// Whether two pools trade the same two tokens, in whichever order.
pub fn same_token_pair(a: &PoolConfig, b: &PoolConfig) -> (r: bool)
    ensures
        r == spec_same_token_pair(*a, *b),
{
    (a.token0() == b.token0() && a.token1() == b.token1()) || (a.token0() == b.token1()
        && a.token1() == b.token0())
}

/// The model of an opportunity.
#[verifier::ext_equal]
pub struct OpportunityView {
    pub first_pool: Seq<char>,
    pub second_pool: Seq<char>,
    pub token_start: Address,
    pub token_mid: Address,
    pub amount_in: nat,
    pub amount_after_first: nat,
    pub amount_out: nat,
    pub gross_profit_wei: int,
    pub estimated_net_profit_wei: int,
    pub profit_bps: int,
    pub gas_adjusted: bool,
    pub unix_ts: u64,
    pub legs: Seq<ExecutionLeg>,
}

/// A route that ends with more of its token than it started with.
#[derive(Clone, Debug)]
pub struct Opportunity {
    /// The pool of the first swap.
    pub first_pool: String,
    /// The pool of the second swap.
    pub second_pool: String,
    /// The token that the route starts and ends with.
    pub token_start: Address,
    /// The token in between.
    pub token_mid: Address,
    /// How much goes in.
    pub amount_in: U256,
    /// How much the first swap gives.
    pub amount_after_first: U256,
    /// How much comes out.
    pub amount_out: U256,
    /// The profit before gas, in the smallest unit of the start token.
    pub gross_profit_wei: i128,
    /// The profit after gas, where gas is paid in the start token; otherwise
    /// the profit before gas.
    pub estimated_net_profit_wei: i128,
    /// The estimated profit in hundredths of a percent of the input.
    pub profit_bps: i128,
    /// Whether gas was deducted.
    pub gas_adjusted: bool,
    /// When the opportunity was found, in Unix seconds.
    pub unix_ts: u64,
    /// The two swaps, in order.
    pub legs: Vec<ExecutionLeg>,
}

impl View for Opportunity {
    type V = OpportunityView;

    open spec fn view(&self) -> OpportunityView {
        OpportunityView {
            first_pool: self.first_pool@,
            second_pool: self.second_pool@,
            token_start: self.token_start,
            token_mid: self.token_mid,
            amount_in: self.amount_in@,
            amount_after_first: self.amount_after_first@,
            amount_out: self.amount_out@,
            gross_profit_wei: self.gross_profit_wei as int,
            estimated_net_profit_wei: self.estimated_net_profit_wei as int,
            profit_bps: self.profit_bps as int,
            gas_adjusted: self.gas_adjusted,
            unix_ts: self.unix_ts,
            legs: self.legs@,
        }
    }
}

/// Whether two pools trade the same tokens does not depend on their order, nor on
/// the order of the tokens in either.
pub proof fn law_same_pair_is_symmetric(a: PoolConfig, b: PoolConfig)
    ensures
        spec_same_token_pair(a, b) == spec_same_token_pair(b, a),
        spec_same_token_pair(a, b) <==> forall|token: Address| #[trigger]
            a.spec_contains_token(token) <==> b.spec_contains_token(token),
{
    if forall|token: Address| #[trigger]
        a.spec_contains_token(token) <==> b.spec_contains_token(token) {
        assert(a.spec_contains_token(a.spec_token0()));
        assert(a.spec_contains_token(a.spec_token1()));
        assert(a.spec_contains_token(b.spec_token0()) <==> b.spec_contains_token(b.spec_token0()));
        assert(a.spec_contains_token(b.spec_token1()) <==> b.spec_contains_token(b.spec_token1()));
    }
}

/// A swap is executed on the pool that is configured: its router, kind 0 without a
/// fee on a V2 pool, kind 1 with the configured fee tier on a V3 pool, for the two
/// tokens as given. Only a Balancer swap names a pool.
pub proof fn law_swap_names_its_pool(pool: PoolConfig, token_in: Address, token_out: Address)
    ensures
        ({
            let leg = pool_leg(pool, token_in, token_out);
            &&& leg.token_in == token_in
            &&& leg.token_out == token_out
            &&& forall|i: int| 0 <= i < 32 ==> #[trigger] leg.pool_id.0@[i] == 0
            &&& pool matches PoolConfig::V2 { router, .. } ==> leg.kind == 0 && leg.fee == 0
                && leg.router == router
            &&& pool matches PoolConfig::V3 { router, fee, .. } ==> leg.kind == 1 && leg.fee == fee
                && leg.router == router
        }),
{
}

/// A swap on a venue has the kind, the fee tier and the pool of the venue, and the
/// router and the tokens as given.
pub proof fn law_swap_follows_venue(
    venue: SwapVenue,
    router: Address,
    token_in: Address,
    token_out: Address,
)
    ensures
        ({
            let leg = spec_leg(venue, router, token_in, token_out);
            &&& leg.router == router
            &&& leg.token_in == token_in
            &&& leg.token_out == token_out
            &&& venue is V2 ==> leg.kind == 0 && leg.fee == 0
            &&& venue matches SwapVenue::V3 { fee } ==> leg.kind == 1 && leg.fee == fee
            &&& venue matches SwapVenue::BalancerV2 { pool_id } ==> leg.kind == 2 && leg.fee == 0
                && leg.pool_id == pool_id
            &&& !(venue is BalancerV2) ==> forall|i: int|
                0 <= i < 32 ==> #[trigger] leg.pool_id.0@[i] == 0
        }),
{
}

/// An opportunity stands for its fields.
pub proof fn law_opportunities_stand_for_their_fields(o: Opportunity)
    ensures
        o@.first_pool == o.first_pool@,
        o@.second_pool == o.second_pool@,
        o@.token_start == o.token_start,
        o@.token_mid == o.token_mid,
        o@.amount_in == o.amount_in@,
        o@.amount_after_first == o.amount_after_first@,
        o@.amount_out == o.amount_out@,
        o@.gross_profit_wei == o.gross_profit_wei,
        o@.estimated_net_profit_wei == o.estimated_net_profit_wei,
        o@.profit_bps == o.profit_bps,
        o@.gas_adjusted == o.gas_adjusted,
        o@.unix_ts == o.unix_ts,
        o@.legs == o.legs@,
{
}

} // verus!
