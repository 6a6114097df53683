//! What the result of a scan does not depend on: the debug switch, the time at
//! which routes are decided, and pools that cannot be quoted.

use crate::agenda::{
    agenda, first_steps, law_error_exactly_on_unreadable_amount, pair_step, second_steps,
    trade_steps, Step,
};
use crate::config::{bad_amount, lemma_bad_amount, BotConfig, PoolConfig};
use crate::opportunity::OpportunityView;
use crate::profit::Verdict;
use crate::ranking::{goes_before, is_ranking, law_ranking_is_unique, ranked_from};
use crate::scanner::{
    findings, first_quote, lemma_agenda_route, lemma_route_is_step, profitable, route_verdict,
    routes, second_quote, verdicts, RouteEvidence,
};
use crate::types::{dec_str_result, Address};
use vstd::prelude::*;

verus! {

/// Whether two opportunities agree on everything but when they were found.
pub open spec fn same_but_time(a: OpportunityView, b: OpportunityView) -> bool {
    a == (OpportunityView { unix_ts: a.unix_ts, ..b })
}

/// Whether two lists of opportunities agree entry by entry, but for the times.
pub open spec fn all_same_but_time(a: Seq<OpportunityView>, b: Seq<OpportunityView>) -> bool {
    &&& a.len() == b.len()
    &&& forall|k: int|
        #![trigger a[k]]
        #![trigger b[k]]
        0 <= k < a.len() ==> same_but_time(a[k], b[k])
}

/// Whether the chain answered the same for two lists of routes, at whatever times.
pub open spec fn same_answers(a: Seq<RouteEvidence>, b: Seq<RouteEvidence>) -> bool {
    &&& a.len() == b.len()
    &&& forall|k: int|
        #![trigger a[k]]
        #![trigger b[k]]
        0 <= k < a.len() ==> a[k].first == b[k].first && a[k].second == b[k].second
}

/// Whether two scans report the same, but for the times: every list that ranks
/// `found` agrees with every list that ranks `other`.
pub open spec fn reported_alike(found: Seq<OpportunityView>, other: Seq<OpportunityView>) -> bool {
    forall|a: Seq<OpportunityView>, b: Seq<OpportunityView>|
        #![trigger ranked_from(found, a), ranked_from(other, b)]
        ranked_from(found, a) && ranked_from(other, b) ==> all_same_but_time(a, b)
}

/// Whether two verdicts find the same opportunity, or none.
spec fn same_verdict(a: Verdict, b: Verdict) -> bool {
    &&& a is Profitable <==> b is Profitable
    &&& a is Profitable ==> same_but_time(a->opportunity, b->opportunity)
}

/// Whether two configurations try the same amounts and judge profits alike.
spec fn same_rules(a: BotConfig, b: BotConfig) -> bool {
    &&& a.trade_sizes == b.trade_sizes
    &&& a.native_wrapped_token == b.native_wrapped_token
    &&& a.min_profit_bps == b.min_profit_bps
    &&& a.gas_limit == b.gas_limit
    &&& a.max_gas_price_gwei == b.max_gas_price_gwei
}

/// The verdict on a route rests on its two pools, its trade and the answers.
proof fn lemma_verdict_rests_on_answers(
    cfg: BotConfig,
    other: BotConfig,
    route: Step,
    moved: Step,
    evidence: RouteEvidence,
    later: RouteEvidence,
)
    requires
        same_rules(cfg, other),
        route is Route,
        moved is Route,
        route->Route_trade == moved->Route_trade,
        route->Route_amount_in == moved->Route_amount_in,
        cfg.pools@[route->Route_first] == other.pools@[moved->Route_first],
        cfg.pools@[route->Route_second] == other.pools@[moved->Route_second],
        evidence.first == later.first,
        evidence.second == later.second,
    ensures
        same_verdict(route_verdict(cfg, route, evidence), route_verdict(other, moved, later)),
{
}

/// Like verdicts find like opportunities.
proof fn lemma_like_verdicts(a: Seq<Verdict>, b: Seq<Verdict>)
    requires
        a.len() == b.len(),
        forall|k: int| 0 <= k < a.len() ==> same_verdict(#[trigger] a[k], b[k]),
    ensures
        all_same_but_time(profitable(a), profitable(b)),
    decreases a.len(),
{
    if a.len() > 0 {
        assert forall|k: int| 0 <= k < a.drop_last().len() implies same_verdict(
            #[trigger] a.drop_last()[k],
            b.drop_last()[k],
        ) by {
            assert(same_verdict(a[k], b[k]));
        }
        lemma_like_verdicts(a.drop_last(), b.drop_last());
        assert(same_verdict(a[a.len() - 1], b[a.len() - 1]));
    }
}

/// Rankings do not depend on times.
proof fn lemma_reported_alike(found: Seq<OpportunityView>, other: Seq<OpportunityView>)
    requires
        all_same_but_time(found, other),
    ensures
        reported_alike(found, other),
{
    assert forall|a: Seq<OpportunityView>, b: Seq<OpportunityView>|
        #![trigger ranked_from(found, a), ranked_from(other, b)]
        ranked_from(found, a) && ranked_from(other, b) implies all_same_but_time(a, b) by {
        let order = choose|order: Seq<int>| is_ranking(found, order, a);
        let c = Seq::new(a.len(), |k: int| other[order[k]]);
        assert(is_ranking(other, order, c)) by {
            assert forall|k: int| 0 <= k < order.len() implies 0 <= #[trigger] order[k]
                < other.len() && c[k] == other[order[k]] by {}
            assert forall|i: int, j: int| 0 <= i < j < order.len() implies
                goes_before(other, #[trigger] order[i], #[trigger] order[j]) by {
                assert(goes_before(found, order[i], order[j]));
                assert(same_but_time(found[order[i]], other[order[i]]));
                assert(same_but_time(found[order[j]], other[order[j]]));
            }
        }
        law_ranking_is_unique(other, b, c);
        assert forall|k: int| 0 <= k < a.len() implies #[trigger] same_but_time(a[k], b[k]) by {
            assert(a[k] == found[order[k]]);
            assert(same_but_time(found[order[k]], other[order[k]]));
        }
    }
}

/// The debug switch leaves the result of a scan alone: two configurations that
/// differ in nothing else go through the same steps and, where the chain answers
/// the same, report the same, but for the times.
pub proof fn law_debug_switch_changes_no_result(
    cfg: BotConfig,
    other: BotConfig,
    evidence: Seq<RouteEvidence>,
    later: Seq<RouteEvidence>,
)
    requires
        other == (BotConfig { debug_quotes: other.debug_quotes, ..cfg }),
        evidence.len() == routes(agenda(cfg)).len(),
        same_answers(evidence, later),
    ensures
        agenda(cfg) == agenda(other),
        all_same_but_time(findings(cfg, evidence), findings(other, later)),
        reported_alike(findings(cfg, evidence), findings(other, later)),
{
    lemma_same_trade_steps(cfg, other, 0);
    let all = routes(agenda(cfg));
    let a = verdicts(cfg, all, evidence);
    let b = verdicts(other, all, later);
    assert forall|k: int| 0 <= k < a.len() implies same_verdict(#[trigger] a[k], b[k]) by {
        lemma_route_is_step(agenda(cfg), k);
        lemma_verdict_rests_on_answers(cfg, other, all[k], all[k], evidence[k], later[k]);
    }
    lemma_like_verdicts(a, b);
    lemma_reported_alike(findings(cfg, evidence), findings(other, later));
}

/// The steps follow from the pools and the trades.
proof fn lemma_same_trade_steps(cfg: BotConfig, other: BotConfig, from: int)
    requires
        cfg.pools == other.pools,
        cfg.trade_sizes == other.trade_sizes,
    ensures
        trade_steps(cfg, from) == trade_steps(other, from),
    decreases cfg.trade_sizes@.len() - from,
{
    if from < cfg.trade_sizes@.len() {
        lemma_same_trade_steps(cfg, other, from + 1);
    }
}

/// Whether `other` is `cfg` without the pool at `gone`.
pub open spec fn without_pool(cfg: BotConfig, other: BotConfig, gone: int) -> bool {
    &&& other == (BotConfig { pools: other.pools, ..cfg })
    &&& other.pools@ == cfg.pools@.remove(gone)
}

/// Whether `route` goes past the pool at `gone`.
pub open spec fn avoids(route: Step, gone: int) -> bool {
    route->Route_first != gone && route->Route_second != gone
}

/// Where the pool at `i` stands once the pool at `gone` is taken out.
pub open spec fn moved(i: int, gone: int) -> int {
    if i > gone {
        i - 1
    } else {
        i
    }
}

/// A route, once the pool at `gone` is taken out.
pub open spec fn moved_route(route: Step, gone: int) -> Step {
    Step::Route {
        trade: route->Route_trade,
        first: moved(route->Route_first, gone),
        second: moved(route->Route_second, gone),
        amount_in: route->Route_amount_in,
    }
}

/// The routes that are left once the pool at `gone` is taken out.
pub open spec fn remaining(routes: Seq<Step>, gone: int) -> Seq<Step>
    decreases routes.len(),
{
    if routes.len() == 0 {
        Seq::empty()
    } else if avoids(routes.last(), gone) {
        remaining(routes.drop_last(), gone).push(moved_route(routes.last(), gone))
    } else {
        remaining(routes.drop_last(), gone)
    }
}

/// What the chain answered for the routes that are left once the pool at `gone` is
/// taken out.
pub open spec fn remaining_evidence(
    routes: Seq<Step>,
    evidence: Seq<RouteEvidence>,
    gone: int,
) -> Seq<RouteEvidence>
    decreases routes.len(),
{
    if routes.len() == 0 {
        Seq::empty()
    } else if avoids(routes.last(), gone) {
        remaining_evidence(routes.drop_last(), evidence.drop_last(), gone).push(evidence.last())
    } else {
        remaining_evidence(routes.drop_last(), evidence.drop_last(), gone)
    }
}

/// Whether every quote that `route` asks of the pool at `gone` fails.
pub open spec fn quote_fails(
    cfg: BotConfig,
    route: Step,
    evidence: RouteEvidence,
    gone: int,
) -> bool {
    let first = first_quote(cfg, route, evidence.first);
    &&& route->Route_first == gone ==> first is Err
    &&& route->Route_second == gone && first is Ok && first->Ok_0.amount_out != 0 ==> second_quote(
        cfg,
        route,
        first->Ok_0,
        evidence.second->0,
    ) is Err
}

/// Taking routes out of steps goes part by part.
proof fn lemma_routes_concat(a: Seq<Step>, b: Seq<Step>)
    ensures
        routes(a + b) == routes(a) + routes(b),
    decreases b.len(),
{
    if b.len() == 0 {
        assert(a + b =~= a);
        assert(routes(a) + routes(b) =~= routes(a));
    } else {
        lemma_routes_concat(a, b.drop_last());
        assert((a + b).drop_last() =~= a + b.drop_last());
        assert((a + b).last() == b.last());
        assert(routes(a + b) =~= routes(a) + routes(b));
    }
}

/// Taking routes out goes part by part.
proof fn lemma_remaining_concat(a: Seq<Step>, b: Seq<Step>, gone: int)
    ensures
        remaining(a + b, gone) == remaining(a, gone) + remaining(b, gone),
    decreases b.len(),
{
    if b.len() == 0 {
        assert(a + b =~= a);
        assert(remaining(a, gone) + remaining(b, gone) =~= remaining(a, gone));
    } else {
        lemma_remaining_concat(a, b.drop_last(), gone);
        assert((a + b).drop_last() =~= a + b.drop_last());
        assert((a + b).last() == b.last());
        assert(remaining(a + b, gone) =~= remaining(a, gone) + remaining(b, gone));
    }
}

/// The route of a single step, before and after the pool at `gone` is taken out.
proof fn lemma_single_step(step: Step, gone: int)
    ensures
        routes(seq![step]) == if step is Route {
            seq![step]
        } else {
            Seq::empty()
        },
        remaining(routes(seq![step]), gone) == if step is Route && avoids(step, gone) {
            seq![moved_route(step, gone)]
        } else {
            Seq::empty()
        },
{
    reveal_with_fuel(routes, 2);
    reveal_with_fuel(remaining, 2);
    let one = seq![step];
    assert(one.drop_last() =~= Seq::<Step>::empty());
    assert(one.last() == step);
    if step is Route {
        assert(routes(one) =~= one);
        assert(remaining(one, gone) =~= if avoids(step, gone) {
            seq![moved_route(step, gone)]
        } else {
            Seq::empty()
        });
    }
}

/// What is left of the routes of a first pool.
proof fn lemma_second_steps_left(
    pools: Seq<PoolConfig>,
    gone: int,
    trade: int,
    first: int,
    amount_in: nat,
    from: int,
)
    requires
        0 <= gone < pools.len(),
        0 <= first < pools.len(),
        0 <= from <= pools.len(),
    ensures
        remaining(routes(second_steps(pools, trade, first, amount_in, from)), gone) == if first
            == gone {
            Seq::empty()
        } else {
            routes(
                second_steps(
                    pools.remove(gone),
                    trade,
                    moved(first, gone),
                    amount_in,
                    moved(from, gone),
                ),
            )
        },
    decreases pools.len() - from,
{
    let left = pools.remove(gone);
    if from < pools.len() {
        lemma_second_steps_left(pools, gone, trade, first, amount_in, from + 1);
        let rest = second_steps(pools, trade, first, amount_in, from + 1);
        if from != first {
            let step = pair_step(pools, trade, first, from, amount_in);
            lemma_routes_concat(seq![step], rest);
            lemma_remaining_concat(routes(seq![step]), routes(rest), gone);
            lemma_single_step(step, gone);
            if first != gone && from != gone {
                assert(left[moved(first, gone)] == pools[first]);
                assert(left[moved(from, gone)] == pools[from]);
                let other = pair_step(
                    left,
                    trade,
                    moved(first, gone),
                    moved(from, gone),
                    amount_in,
                );
                let others = second_steps(
                    left,
                    trade,
                    moved(first, gone),
                    amount_in,
                    moved(from, gone) + 1,
                );
                assert(moved(from + 1, gone) == moved(from, gone) + 1);
                lemma_routes_concat(seq![other], others);
                lemma_single_step(other, gone);
                assert(routes(seq![other]) =~= remaining(routes(seq![step]), gone));
            } else {
                assert(Seq::<Step>::empty() + remaining(routes(rest), gone) =~= remaining(
                    routes(rest),
                    gone,
                ));
            }
        }
    }
}

/// What is left of the routes of a trade.
proof fn lemma_first_steps_left(
    pools: Seq<PoolConfig>,
    gone: int,
    token: Address,
    trade: int,
    amount_in: nat,
    from: int,
)
    requires
        0 <= gone < pools.len(),
        0 <= from <= pools.len(),
    ensures
        remaining(routes(first_steps(pools, token, trade, amount_in, from)), gone) == routes(
            first_steps(pools.remove(gone), token, trade, amount_in, moved(from, gone)),
        ),
    decreases pools.len() - from,
{
    let left = pools.remove(gone);
    if from < pools.len() {
        lemma_first_steps_left(pools, gone, token, trade, amount_in, from + 1);
        let rest = first_steps(pools, token, trade, amount_in, from + 1);
        let here = if pools[from].spec_contains_token(token) {
            second_steps(pools, trade, from, amount_in, 0)
        } else {
            seq![Step::MissingStartToken { trade, first: from, amount_in }]
        };
        lemma_routes_concat(here, rest);
        lemma_remaining_concat(routes(here), routes(rest), gone);
        lemma_second_steps_left(pools, gone, trade, from, amount_in, 0);
        lemma_single_step(Step::MissingStartToken { trade, first: from, amount_in }, gone);
        if from == gone {
            assert(Seq::<Step>::empty() + remaining(routes(rest), gone) =~= remaining(
                routes(rest),
                gone,
            ));
        } else {
            let i = moved(from, gone);
            assert(left[i] == pools[from]);
            let others = first_steps(left, token, trade, amount_in, i + 1);
            let other = if pools[from].spec_contains_token(token) {
                second_steps(left, trade, i, amount_in, 0)
            } else {
                seq![Step::MissingStartToken { trade, first: i, amount_in }]
            };
            assert(moved(from + 1, gone) == i + 1);
            lemma_routes_concat(other, others);
            lemma_single_step(Step::MissingStartToken { trade, first: i, amount_in }, gone);
            assert(routes(other) == remaining(routes(here), gone));
        }
    }
}

/// What is left of the routes of all trades.
proof fn lemma_trade_steps_left(cfg: BotConfig, other: BotConfig, gone: int, from: int)
    requires
        0 <= gone < cfg.pools@.len(),
        without_pool(cfg, other, gone),
        0 <= from,
    ensures
        remaining(routes(trade_steps(cfg, from)), gone) == routes(trade_steps(other, from)),
    decreases cfg.trade_sizes@.len() - from,
{
    if from < cfg.trade_sizes@.len() {
        let trade = cfg.trade_sizes@[from];
        match dec_str_result(trade.amount_wei@) {
            Err(_) => {
                let step = trade_steps(cfg, from)[0];
                assert(trade_steps(cfg, from) =~= seq![step]);
                assert(trade_steps(other, from) =~= seq![step]);
                lemma_single_step(step, gone);
            },
            Ok(amount_in) => {
                lemma_trade_steps_left(cfg, other, gone, from + 1);
                let here = first_steps(cfg.pools@, trade.token, from, amount_in, 0);
                let there = first_steps(other.pools@, trade.token, from, amount_in, 0);
                lemma_first_steps_left(cfg.pools@, gone, trade.token, from, amount_in, 0);
                lemma_routes_concat(here, trade_steps(cfg, from + 1));
                lemma_routes_concat(there, trade_steps(other, from + 1));
                lemma_remaining_concat(routes(here), routes(trade_steps(cfg, from + 1)), gone);
            },
        }
    }
}

/// Routes that fail find nothing, and the others find what they find without the
/// pool.
proof fn lemma_remaining_findings(
    cfg: BotConfig,
    other: BotConfig,
    gone: int,
    all: Seq<Step>,
    evidence: Seq<RouteEvidence>,
    later: Seq<RouteEvidence>,
)
    requires
        0 <= gone < cfg.pools@.len(),
        without_pool(cfg, other, gone),
        evidence.len() == all.len(),
        forall|k: int| 0 <= k < all.len() ==> #[trigger] all[k] is Route,
        forall|k: int|
            0 <= k < all.len() ==> {
                let route = #[trigger] all[k];
                &&& 0 <= route->Route_first < cfg.pools@.len()
                &&& 0 <= route->Route_second < cfg.pools@.len()
                &&& quote_fails(cfg, route, evidence[k], gone)
            },
        same_answers(remaining_evidence(all, evidence, gone), later),
    ensures
        remaining(all, gone).len() == later.len(),
        all_same_but_time(
            profitable(verdicts(cfg, all, evidence)),
            profitable(verdicts(other, remaining(all, gone), later)),
        ),
    decreases all.len(),
{
    let left = remaining(all, gone);
    let a = verdicts(cfg, all, evidence);
    let b = verdicts(other, left, later);
    if all.len() > 0 {
        let route = all.last();
        let most = all.drop_last();
        let known = evidence.drop_last();
        assert(all[all.len() - 1] is Route);
        assert(a.drop_last() =~= verdicts(cfg, most, known));
        assert forall|k: int| 0 <= k < most.len() implies {
            let r = #[trigger] most[k];
            &&& r is Route
            &&& 0 <= r->Route_first < cfg.pools@.len()
            &&& 0 <= r->Route_second < cfg.pools@.len()
            &&& quote_fails(cfg, r, known[k], gone)
        } by {
            assert(all[k] == most[k]);
        }
        if avoids(route, gone) {
            let answers = remaining_evidence(all, evidence, gone);
            let before = remaining_evidence(most, known, gone);
            assert(answers == before.push(evidence.last()));
            assert(same_answers(before, later.drop_last())) by {
                assert forall|k: int| 0 <= k < before.len() implies (#[trigger] before[k]).first
                    == later.drop_last()[k].first && before[k].second
                    == later.drop_last()[k].second by {
                    assert(answers[k] == before[k]);
                }
            }
            lemma_remaining_findings(cfg, other, gone, most, known, later.drop_last());
            assert(left.drop_last() =~= remaining(most, gone));
            assert(b.drop_last() =~= verdicts(other, remaining(most, gone), later.drop_last()));
            assert(answers[answers.len() - 1] == evidence.last());
            lemma_verdict_rests_on_answers(
                cfg,
                other,
                route,
                moved_route(route, gone),
                evidence.last(),
                later.last(),
            );
        } else {
            lemma_remaining_findings(cfg, other, gone, most, known, later);
            assert(quote_fails(cfg, all[all.len() - 1], evidence[all.len() - 1], gone));
            assert(!(a.last() is Profitable));
        }
    }
}

/// A pool that cannot be quoted drops only the routes through it: where every amount
/// can be read the scan still meets no error, and it reports what it would report
/// without the pool, but for the times, where the chain answers the same for all
/// other routes.
pub proof fn law_failing_pool_drops_only_its_routes(
    cfg: BotConfig,
    other: BotConfig,
    gone: int,
    evidence: Seq<RouteEvidence>,
    later: Seq<RouteEvidence>,
)
    requires
        0 <= gone < cfg.pools@.len(),
        without_pool(cfg, other, gone),
        evidence.len() == routes(agenda(cfg)).len(),
        forall|k: int|
            0 <= k < evidence.len() ==> quote_fails(
                cfg,
                #[trigger] routes(agenda(cfg))[k],
                evidence[k],
                gone,
            ),
        same_answers(remaining_evidence(routes(agenda(cfg)), evidence, gone), later),
    ensures
        forall|k: int|
            bad_amount(cfg.trade_sizes@, 0) is None && 0 <= k < agenda(cfg).len() ==> !(
            #[trigger] agenda(cfg)[k] is BadAmount),
        routes(agenda(other)) == remaining(routes(agenda(cfg)), gone),
        later.len() == routes(agenda(other)).len(),
        all_same_but_time(findings(cfg, evidence), findings(other, later)),
        reported_alike(findings(cfg, evidence), findings(other, later)),
{
    let all = routes(agenda(cfg));
    law_error_exactly_on_unreadable_amount(cfg);
    lemma_bad_amount(cfg.trade_sizes@, 0);
    lemma_trade_steps_left(cfg, other, gone, 0);
    assert forall|k: int| 0 <= k < all.len() implies {
        let route = #[trigger] all[k];
        &&& route is Route
        &&& 0 <= route->Route_first < cfg.pools@.len()
        &&& 0 <= route->Route_second < cfg.pools@.len()
        &&& quote_fails(cfg, route, evidence[k], gone)
    } by {
        let i = lemma_route_is_step(agenda(cfg), k);
        lemma_agenda_route(cfg, i);
    }
    lemma_remaining_findings(cfg, other, gone, all, evidence, later);
    lemma_reported_alike(findings(cfg, evidence), findings(other, later));
}

} // verus!
