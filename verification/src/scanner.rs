//! A scan as a conversation: the scanner says what to ask the chain, takes the
//! answers, and ends with the opportunities, most promising first.

use crate::agenda::{
    agenda, arises, is_candidate, law_agenda_covers_configuration, law_agenda_follows_configuration,
    law_agenda_quotes_candidates, law_error_exactly_on_unreadable_amount, scan_steps, step_models,
    ScanStep, Step,
};
use crate::config::{
    bad_amount, law_valid_configurations, lemma_bad_amount, BotConfig, ConfigError, PoolConfig,
};
use crate::dex::{
    accepts_reply, answers, lemma_quote_tokens, quote_from_reply, quote_request, quote_result,
    reply_answers, reply_fits, request_asks, spec_other_token, PoolClient, Quote, QuoteFault,
    QuoteReply, QuoteRequest, QuoteView,
};
use crate::executor::least_output;
use crate::opportunity::{law_swap_names_its_pool, pool_leg, Opportunity, OpportunityView};
use crate::profit::{
    delta, evaluate_route, evaluation, gas_cost, law_every_route_above_the_threshold_is_profitable,
    law_gas_is_deducted_from_native_profit, net_profit, profit_bps, route_fits, saturated,
    scaled_profit_fits, scaled_profit_in_range, toward_zero, RouteOutcome, Verdict,
};
use crate::ranking::{law_ranking_orders_findings, models, rank, ranked_from};
use crate::types::dec_str_result;
use std::sync::Arc;
use vstd::pervasive::unreached;
use vstd::prelude::*;

verus! {

/// What the chain answered for one route.
pub struct RouteEvidence {
    /// The answer for the first quote.
    pub first: QuoteReply,
    /// The answer for the second quote, where it was asked for.
    pub second: Option<QuoteReply>,
    /// When the route was decided, in Unix seconds.
    pub unix_ts: u64,
}

/// The routes among `steps`, in order.
pub open spec fn routes(steps: Seq<Step>) -> Seq<Step>
    decreases steps.len(),
{
    if steps.len() == 0 {
        Seq::empty()
    } else if steps.last() is Route {
        routes(steps.drop_last()).push(steps.last())
    } else {
        routes(steps.drop_last())
    }
}

/// The quote of the first swap of a route, given what the chain answered.
pub open spec fn first_quote(cfg: BotConfig, route: Step, reply: QuoteReply) -> Result<
    QuoteView,
    QuoteFault,
> {
    quote_result(
        cfg.pools@[route->Route_first],
        cfg.trade_sizes@[route->Route_trade].token,
        route->Route_amount_in,
        reply,
    )
}

/// The quote of the second swap of a route, which takes in what the first gave.
pub open spec fn second_quote(
    cfg: BotConfig,
    route: Step,
    first: QuoteView,
    reply: QuoteReply,
) -> Result<QuoteView, QuoteFault> {
    quote_result(cfg.pools@[route->Route_second], first.token_out, first.amount_out, reply)
}

/// What becomes of a route, given what the chain answered.
pub open spec fn route_verdict(cfg: BotConfig, route: Step, evidence: RouteEvidence) -> Verdict {
    match first_quote(cfg, route, evidence.first) {
        Err(fault) => Verdict::QuoteFailed { fault },
        Ok(first) => if first.amount_out == 0 {
            Verdict::FirstQuoteZero
        } else {
            match second_quote(cfg, route, first, evidence.second->0) {
                Err(fault) => Verdict::QuoteFailed { fault },
                Ok(second) => evaluation(
                    cfg,
                    cfg.pools@[route->Route_first],
                    cfg.pools@[route->Route_second],
                    cfg.trade_sizes@[route->Route_trade].token,
                    route->Route_amount_in,
                    first,
                    second,
                    evidence.unix_ts,
                ),
            }
        },
    }
}

/// Whether `evidence` holds an answer to everything that was asked for a route.
pub open spec fn evidence_complete(cfg: BotConfig, route: Step, evidence: RouteEvidence) -> bool {
    &&& reply_answers(cfg.pools@[route->Route_first], evidence.first)
    &&& match evidence.second {
        Some(reply) => reply_answers(cfg.pools@[route->Route_second], reply),
        None => first_quote(cfg, route, evidence.first) matches Ok(quote) ==> quote.amount_out == 0,
    }
}

/// What becomes of each of `routes`, given what the chain answered for it.
pub open spec fn verdicts(
    cfg: BotConfig,
    routes: Seq<Step>,
    evidence: Seq<RouteEvidence>,
) -> Seq<Verdict> {
    Seq::new(routes.len(), |k: int| route_verdict(cfg, routes[k], evidence[k]))
}

/// The opportunities among `verdicts`, in order.
pub open spec fn profitable(verdicts: Seq<Verdict>) -> Seq<OpportunityView>
    decreases verdicts.len(),
{
    if verdicts.len() == 0 {
        Seq::empty()
    } else {
        match verdicts.last() {
            Verdict::Profitable { opportunity } => profitable(verdicts.drop_last()).push(
                opportunity,
            ),
            _ => profitable(verdicts.drop_last()),
        }
    }
}

/// The opportunities that a scan finds, in the order in which it finds them,
/// given what the chain answered for each of its routes.
pub open spec fn findings(cfg: BotConfig, evidence: Seq<RouteEvidence>) -> Seq<OpportunityView> {
    profitable(verdicts(cfg, routes(agenda(cfg)), evidence))
}

/// The short name under which the step at `k` is logged: why it was skipped, or
/// what became of the route, given what the chain answered for the routes among
/// `steps`.
pub open spec fn step_reason(
    cfg: BotConfig,
    steps: Seq<Step>,
    evidence: Seq<RouteEvidence>,
    k: int,
) -> Seq<char> {
    match steps[k].spec_skip_reason() {
        Some(reason) => reason,
        None => route_verdict(
            cfg,
            steps[k],
            evidence[routes(steps.take(k)).len() as int],
        ).spec_reason(),
    }
}

/// What the debug switch has logged after `steps`: one record for each step, with
/// its reason, where the switch is on; nothing where it is off.
pub open spec fn debug_records(
    cfg: BotConfig,
    steps: Seq<Step>,
    evidence: Seq<RouteEvidence>,
) -> Seq<(Step, Seq<char>)> {
    if cfg.debug_quotes {
        Seq::new(steps.len(), |k: int| (steps[k], step_reason(cfg, steps, evidence, k)))
    } else {
        Seq::empty()
    }
}

/// The models of `outcomes`, in the same order.
pub open spec fn outcome_models(outcomes: Seq<RouteOutcome>) -> Seq<Verdict> {
    Seq::new(outcomes.len(), |k: int| outcomes[k]@)
}

/// How far a scan has come.
pub struct ScanRun {
    steps: Vec<ScanStep>,
    at: usize,
    pending: Option<Quote>,
    outcomes: Vec<RouteOutcome>,
    pending_reply: Ghost<Option<QuoteReply>>,
    evidence: Ghost<Seq<RouteEvidence>>,
}

/// What the scan needs next.
#[derive(Debug)]
pub enum ScanAction {
    /// The current step needs nothing; go past it.
    Skip,
    /// Ask the chain for the quote of the current route.
    Ask { request: QuoteRequest },
    /// The scan ends with an error.
    Abort { error: ConfigError },
    /// Everything has been gone through.
    Finish,
}

impl ScanRun {
    /// The number of steps that are done.
    pub closed spec fn spec_at(self) -> nat {
        self.at as nat
    }

    /// The first quote of the current route, once it is known.
    pub closed spec fn spec_pending(self) -> Option<QuoteView> {
        match self.pending {
            Some(quote) => Some(quote@),
            None => None,
        }
    }

    /// The answer that the first quote of the current route came from.
    pub closed spec fn spec_pending_reply(self) -> Option<QuoteReply> {
        self.pending_reply@
    }

    /// What the chain answered for the routes that are done.
    pub closed spec fn spec_evidence(self) -> Seq<RouteEvidence> {
        self.evidence@
    }

    /// What became of the routes that are done.
    pub closed spec fn spec_verdicts(self) -> Seq<Verdict> {
        outcome_models(self.outcomes@)
    }

    /// Whether this is a state of a scan with the configuration `cfg`: it follows
    /// the agenda, no step that is done was an error, and what became of each
    /// route follows from what the chain answered.
    pub closed spec fn wf(self, cfg: BotConfig) -> bool {
        &&& step_models(self.steps@) == agenda(cfg)
        &&& self.at <= self.steps@.len()
        &&& forall|k: int| 0 <= k < self.at ==> !(#[trigger] agenda(cfg)[k] is BadAmount)
        &&& self.evidence@.len() == routes(agenda(cfg).take(self.at as int)).len()
        &&& outcome_models(self.outcomes@) == verdicts(
            cfg,
            routes(agenda(cfg).take(self.at as int)),
            self.evidence@,
        )
        &&& forall|k: int|
            0 <= k < self.evidence@.len() ==> evidence_complete(
                cfg,
                #[trigger] routes(agenda(cfg).take(self.at as int))[k],
                self.evidence@[k],
            )
        &&& match self.pending {
            None => self.pending_reply@ is None,
            Some(quote) => {
                &&& self.at < self.steps@.len()
                &&& agenda(cfg)[self.at as int] is Route
                &&& self.pending_reply@ is Some
                &&& first_quote(cfg, agenda(cfg)[self.at as int], self.pending_reply@->0) == Ok::<
                    QuoteView,
                    QuoteFault,
                >(quote@)
                &&& quote.amount_out@ != 0
                &&& reply_answers(
                    cfg.pools@[agenda(cfg)[self.at as int]->Route_first],
                    self.pending_reply@->0,
                )
            },
        }
    }
}

/// Each route on the agenda is a candidate.
pub proof fn lemma_agenda_route(cfg: BotConfig, k: int)
    requires
        0 <= k < agenda(cfg).len(),
        agenda(cfg)[k] is Route,
    ensures
        ({
            let route = agenda(cfg)[k];
            is_candidate(
                cfg,
                route->Route_trade,
                route->Route_first,
                route->Route_second,
                route->Route_amount_in,
            )
        }),
{
    let route = agenda(cfg)[k];
    law_agenda_quotes_candidates(
        cfg,
        route->Route_trade,
        route->Route_first,
        route->Route_second,
        route->Route_amount_in,
    );
    assert(agenda(cfg).contains(route));
}

/// One more route is done.
proof fn lemma_route_done(cfg: BotConfig, at: int, evidence: Seq<RouteEvidence>, next: RouteEvidence)
    requires
        0 <= at < agenda(cfg).len(),
        agenda(cfg)[at] is Route,
        evidence.len() == routes(agenda(cfg).take(at)).len(),
    ensures
        routes(agenda(cfg).take(at + 1)) == routes(agenda(cfg).take(at)).push(agenda(cfg)[at]),
        verdicts(cfg, routes(agenda(cfg).take(at + 1)), evidence.push(next)) == verdicts(
            cfg,
            routes(agenda(cfg).take(at)),
            evidence,
        ).push(route_verdict(cfg, agenda(cfg)[at], next)),
{
    assert(agenda(cfg).take(at + 1).drop_last() =~= agenda(cfg).take(at));
    assert(verdicts(cfg, routes(agenda(cfg).take(at + 1)), evidence.push(next)) =~= verdicts(
        cfg,
        routes(agenda(cfg).take(at)),
        evidence,
    ).push(route_verdict(cfg, agenda(cfg)[at], next)));
}

/// A step that is not a route adds none.
proof fn lemma_step_skipped(cfg: BotConfig, at: int)
    requires
        0 <= at < agenda(cfg).len(),
        !(agenda(cfg)[at] is Route),
    ensures
        routes(agenda(cfg).take(at + 1)) == routes(agenda(cfg).take(at)),
{
    assert(agenda(cfg).take(at + 1).drop_last() =~= agenda(cfg).take(at));
}

/// The scanner: a configuration, and the provider that asks the chain.
#[derive(Clone)]
pub struct Scanner<M> {
    provider: Arc<M>,
    cfg: BotConfig,
}

/// What the scan needs next, in the state `run`.
pub open spec fn action_is(cfg: BotConfig, run: ScanRun, action: ScanAction) -> bool {
    let at = run.spec_at() as int;
    if at >= agenda(cfg).len() {
        action is Finish
    } else {
        match agenda(cfg)[at] {
            Step::MissingStartToken { .. } => action is Skip,
            Step::PairMismatch { .. } => action is Skip,
            Step::BadAmount { fault } => action matches ScanAction::Abort { error } && error@
                == fault,
            Step::Route { trade, first, second, amount_in } => {
                &&& action matches ScanAction::Ask { request }
                &&& match run.spec_pending() {
                    None => request_asks(
                        cfg.pools@[first],
                        cfg.trade_sizes@[trade].token,
                        amount_in,
                        request,
                    ),
                    Some(quote) => request_asks(
                        cfg.pools@[second],
                        quote.token_out,
                        quote.amount_out,
                        request,
                    ),
                }
            },
        }
    }
}

/// Whether `reply` answers what the scan asked for in the state `run`, and can be
/// computed with.
pub open spec fn acceptable(cfg: BotConfig, run: ScanRun, reply: QuoteReply) -> bool {
    let route = agenda(cfg)[run.spec_at() as int];
    let token = cfg.trade_sizes@[route->Route_trade].token;
    match run.spec_pending() {
        None => {
            &&& reply_answers(cfg.pools@[route->Route_first], reply)
            &&& reply_fits(cfg.pools@[route->Route_first], token, route->Route_amount_in, reply)
        },
        Some(quote) => {
            &&& reply_answers(cfg.pools@[route->Route_second], reply)
            &&& reply_fits(
                cfg.pools@[route->Route_second],
                quote.token_out,
                quote.amount_out,
                reply,
            )
            &&& second_quote(cfg, route, quote, reply) matches Ok(second) ==> route_fits(
                cfg,
                token,
                route->Route_amount_in,
                second,
            )
        },
    }
}

/// Why an answer cannot be computed with.
#[derive(Clone, Copy, Debug, PartialEq, Eq, Structural)]
pub enum Refusal {
    /// It does not answer what was asked.
    NotAnAnswer,
    /// The quote would leave 256 bits.
    QuoteOverflow,
    /// The profit in ten-thousandths would leave 128 bits.
    ProfitOverflow,
    /// The profit would be a share of nothing.
    ZeroInput,
}

impl Refusal {
    /// How the refusal is explained.
    pub open spec fn spec_message(self) -> Seq<char> {
        match self {
            Refusal::NotAnAnswer => "the reply does not answer the request"@,
            Refusal::QuoteOverflow => "arithmetic operation overflow"@,
            Refusal::ProfitOverflow => "attempt to multiply with overflow"@,
            Refusal::ZeroInput => "attempt to divide by zero"@,
        }
    }

    /// How the refusal is explained.
    pub fn message(&self) -> (r: &'static str)
        ensures
            r@ == self.spec_message(),
    {
        match self {
            Refusal::NotAnAnswer => "the reply does not answer the request",
            Refusal::QuoteOverflow => "arithmetic operation overflow",
            Refusal::ProfitOverflow => "attempt to multiply with overflow",
            Refusal::ZeroInput => "attempt to divide by zero",
        }
    }
}

/// The pool that the current quote is asked of in the state `run`.
pub open spec fn asked_pool(cfg: BotConfig, run: ScanRun) -> PoolConfig {
    let route = agenda(cfg)[run.spec_at() as int];
    match run.spec_pending() {
        None => cfg.pools@[route->Route_first],
        Some(_) => cfg.pools@[route->Route_second],
    }
}

/// Why `reply` cannot be computed with in the state `run`, if it cannot.
pub open spec fn spec_refusal(cfg: BotConfig, run: ScanRun, reply: QuoteReply) -> Option<Refusal> {
    let route = agenda(cfg)[run.spec_at() as int];
    let pool = asked_pool(cfg, run);
    let (token, amount) = match run.spec_pending() {
        None => (cfg.trade_sizes@[route->Route_trade].token, route->Route_amount_in),
        Some(quote) => (quote.token_out, quote.amount_out),
    };
    if acceptable(cfg, run, reply) {
        None
    } else if !reply_answers(pool, reply) {
        Some(Refusal::NotAnAnswer)
    } else if !reply_fits(pool, token, amount, reply) {
        Some(Refusal::QuoteOverflow)
    } else if !scaled_profit_fits(
        cfg,
        cfg.trade_sizes@[route->Route_trade].token,
        route->Route_amount_in,
        second_quote(cfg, route, run.spec_pending()->0, reply)->Ok_0.amount_out,
    ) {
        Some(Refusal::ProfitOverflow)
    } else {
        Some(Refusal::ZeroInput)
    }
}

/// Whether the scan is at a route.
pub open spec fn at_route(cfg: BotConfig, run: ScanRun) -> bool {
    run.spec_at() < agenda(cfg).len() && agenda(cfg)[run.spec_at() as int] is Route
}

impl ScanRun {
    /// The step that the scan is at, unless it has gone through all of them.
    pub fn current(&self) -> (r: Option<&ScanStep>)
        ensures
            forall|cfg: BotConfig| #[trigger]
                self.wf(cfg) ==> match r {
                    Some(step) => self.spec_at() < agenda(cfg).len() && step@
                        == agenda(cfg)[self.spec_at() as int],
                    None => self.spec_at() == agenda(cfg).len(),
                },
    {
        if self.at < self.steps.len() {
            proof {
                assert(step_models(self.steps@)[self.at as int] == self.steps@[self.at as int]@);
            }
            Some(&self.steps[self.at])
        } else {
            None
        }
    }

    /// What became of the last route that is done, if there is one.
    pub fn last_outcome(&self) -> (r: Option<&RouteOutcome>)
        ensures
            match r {
                Some(outcome) => self.spec_verdicts().len() > 0 && outcome@
                    == self.spec_verdicts().last(),
                None => self.spec_verdicts().len() == 0,
            },
    {
        let n = self.outcomes.len();
        if n > 0 {
            Some(&self.outcomes[n - 1])
        } else {
            None
        }
    }
}

impl<M> Scanner<M> {
    /// The provider that asks the chain.
    pub closed spec fn spec_provider(self) -> Arc<M> {
        self.provider
    }

    /// The configuration.
    pub closed spec fn spec_cfg(self) -> BotConfig {
        self.cfg
    }

    /// A scanner for one configuration.
    pub fn new(provider: Arc<M>, cfg: BotConfig) -> (r: Self)
        ensures
            r.spec_provider() == provider,
            r.spec_cfg() == cfg,
    {
        Self { provider, cfg }
    }

    /// The provider that asks the chain.
    pub fn provider(&self) -> (r: Arc<M>)
        ensures
            r == self.spec_provider(),
    {
        self.provider.clone()
    }

    /// The configuration.
    pub fn config(&self) -> (r: &BotConfig)
        ensures
            *r == self.spec_cfg(),
    {
        &self.cfg
    }

    /// Begins a scan.
    pub fn scan(&self) -> (r: ScanRun)
        ensures
            r.wf(self.spec_cfg()),
            r.spec_at() == 0,
            r.spec_pending() is None,
            r.spec_pending_reply() is None,
            r.spec_evidence() == Seq::<RouteEvidence>::empty(),
            r.spec_verdicts() == Seq::<Verdict>::empty(),
    {
        let run = ScanRun {
            steps: scan_steps(&self.cfg),
            at: 0,
            pending: None,
            outcomes: Vec::new(),
            pending_reply: Ghost(None),
            evidence: Ghost(Seq::empty()),
        };
        proof {
            assert(agenda(self.cfg).take(0) =~= Seq::<Step>::empty());
            assert(outcome_models(run.outcomes@) =~= Seq::<Verdict>::empty());
            assert(outcome_models(run.outcomes@) =~= verdicts(
                self.cfg,
                routes(agenda(self.cfg).take(0)),
                run.evidence@,
            ));
        }
        run
    }

    /// A client for the pool that the current quote is asked of: the first pool of
    /// the route, or the second one once the first quote is known.
    pub fn pool_client(&self, run: &ScanRun) -> (r: PoolClient<M>)
        requires
            run.wf(self.spec_cfg()),
            at_route(self.spec_cfg(), *run),
        ensures
            r.spec_provider() == self.spec_provider(),
            r.spec_config() == asked_pool(self.spec_cfg(), *run),
    {
        proof {
            lemma_agenda_route(self.cfg, run.at as int);
            assert(step_models(run.steps@)[run.at as int] == run.steps@[run.at as int]@);
        }
        let index = match &run.steps[run.at] {
            ScanStep::Route { first, second, .. } => if run.pending.is_none() {
                *first
            } else {
                *second
            },
            _ => unreached(),
        };
        PoolClient::new(self.provider.clone(), self.cfg.pools[index].clone())
    }

    /// What the scan needs next.
    pub fn next_action(&self, run: &ScanRun) -> (r: ScanAction)
        requires
            run.wf(self.spec_cfg()),
        ensures
            action_is(self.spec_cfg(), *run, r),
    {
        if run.at >= run.steps.len() {
            return ScanAction::Finish;
        }
        proof {
            assert(step_models(run.steps@)[run.at as int] == run.steps@[run.at as int]@);
        }
        match &run.steps[run.at] {
            ScanStep::MissingStartToken { .. } => ScanAction::Skip,
            ScanStep::PairMismatch { .. } => ScanAction::Skip,
            ScanStep::BadAmount { error } => ScanAction::Abort { error: error.clone() },
            ScanStep::Route { trade, first, amount_in, .. } => {
                proof {
                    lemma_agenda_route(self.cfg, run.at as int);
                    if run.pending is Some {
                        lemma_quote_tokens(
                            self.cfg.pools@[*first as int],
                            self.cfg.trade_sizes@[*trade as int].token,
                            amount_in@,
                            run.pending_reply@->0,
                        );
                    }
                }
                let client = self.pool_client(run);
                let request = match &run.pending {
                    None => quote_request(
                        client.config(),
                        self.cfg.trade_sizes[*trade].token,
                        *amount_in,
                    ),
                    Some(quote) => quote_request(
                        client.config(),
                        quote.token_out,
                        quote.amount_out,
                    ),
                };
                match request {
                    Ok(request) => ScanAction::Ask { request },
                    Err(_) => unreached(),
                }
            },
        }
    }

    /// Goes past a step that needs nothing.
    pub fn skip(&self, run: &mut ScanRun)
        requires
            old(run).wf(self.spec_cfg()),
            old(run).spec_at() < agenda(self.spec_cfg()).len(),
            ({
                let step = agenda(self.spec_cfg())[old(run).spec_at() as int];
                step is MissingStartToken || step is PairMismatch
            }),
        ensures
            final(run).wf(self.spec_cfg()),
            final(run).spec_at() == old(run).spec_at() + 1,
            final(run).spec_pending() is None,
            final(run).spec_pending_reply() is None,
            final(run).spec_evidence() == old(run).spec_evidence(),
            final(run).spec_verdicts() == old(run).spec_verdicts(),
    {
        proof {
            lemma_step_skipped(self.cfg, run.at as int);
            assert(run.at < step_models(run.steps@).len() == run.steps.len());
        }
        run.at = run.at + 1;
    }

    /// Why `reply` cannot be computed with, if it cannot.
    pub fn refusal(&self, run: &ScanRun, reply: &QuoteReply) -> (r: Option<Refusal>)
        requires
            run.wf(self.spec_cfg()),
            at_route(self.spec_cfg(), *run),
        ensures
            r == spec_refusal(self.spec_cfg(), *run, *reply),
    {
        proof {
            lemma_agenda_route(self.cfg, run.at as int);
            assert(step_models(run.steps@)[run.at as int] == run.steps@[run.at as int]@);
        }
        let (trade, amount_in) = match &run.steps[run.at] {
            ScanStep::Route { trade, amount_in, .. } => (*trade, *amount_in),
            _ => unreached(),
        };
        let token = self.cfg.trade_sizes[trade].token;
        let client = self.pool_client(run);
        let pool = client.config();
        let (token_in, amount) = match &run.pending {
            None => (token, amount_in),
            Some(quote) => (quote.token_out, quote.amount_out),
        };
        if !accepts_reply(pool, token_in, amount, reply) {
            return if answers(pool, reply) {
                Some(Refusal::QuoteOverflow)
            } else {
                Some(Refusal::NotAnAnswer)
            };
        }
        if run.pending.is_none() {
            return None;
        }
        match quote_from_reply(pool, token_in, amount, reply) {
            Err(_) => None,
            Ok(last) => {
                if last.token_out != token || last.amount_out <= amount_in {
                    None
                } else if !scaled_profit_in_range(&self.cfg, token, amount_in, last.amount_out) {
                    Some(Refusal::ProfitOverflow)
                } else if amount_in.is_zero() {
                    Some(Refusal::ZeroInput)
                } else {
                    None
                }
            },
        }
    }

    /// Takes the answer that the scan asked for. A first quote that gives something
    /// is kept for the second one; everything else decides the route. Says whether
    /// the route is decided.
    pub fn take_reply(&self, run: &mut ScanRun, reply: QuoteReply, unix_ts: u64) -> (decided: bool)
        requires
            old(run).wf(self.spec_cfg()),
            at_route(self.spec_cfg(), *old(run)),
            acceptable(self.spec_cfg(), *old(run), reply),
        ensures
            final(run).wf(self.spec_cfg()),
            ({
                let route = agenda(self.spec_cfg())[old(run).spec_at() as int];
                let first = first_quote(self.spec_cfg(), route, reply);
                if old(run).spec_pending() is None && first is Ok && first->Ok_0.amount_out != 0 {
                    &&& !decided
                    &&& final(run).spec_pending() == Some(first->Ok_0)
                    &&& final(run).spec_pending_reply() == Some(reply)
                    &&& final(run).spec_at() == old(run).spec_at()
                    &&& final(run).spec_evidence() == old(run).spec_evidence()
                    &&& final(run).spec_verdicts() == old(run).spec_verdicts()
                } else {
                    let evidence = match old(run).spec_pending_reply() {
                        None => RouteEvidence { first: reply, second: None, unix_ts },
                        Some(first) => RouteEvidence { first, second: Some(reply), unix_ts },
                    };
                    &&& decided
                    &&& final(run).spec_pending() is None
                    &&& final(run).spec_pending_reply() is None
                    &&& final(run).spec_at() == old(run).spec_at() + 1
                    &&& final(run).spec_evidence() == old(run).spec_evidence().push(evidence)
                    &&& final(run).spec_verdicts() == old(run).spec_verdicts().push(
                        route_verdict(self.spec_cfg(), route, evidence),
                    )
                }
            }),
    {
        let ghost route = agenda(self.cfg)[run.at as int];
        proof {
            lemma_agenda_route(self.cfg, run.at as int);
            assert(step_models(run.steps@)[run.at as int] == run.steps@[run.at as int]@);
        }
        let (trade, first, second, amount_in) = match &run.steps[run.at] {
            ScanStep::Route { trade, first, second, amount_in } => (
                *trade,
                *first,
                *second,
                *amount_in,
            ),
            _ => unreached(),
        };
        let token = self.cfg.trade_sizes[trade].token;
        let first_pool = &self.cfg.pools[first];
        let second_pool = &self.cfg.pools[second];
        let ghost evidence = match run.pending_reply@ {
            None => RouteEvidence { first: reply, second: None, unix_ts },
            Some(first) => RouteEvidence { first, second: Some(reply), unix_ts },
        };
        let outcome = match run.pending.take() {
            None => match quote_from_reply(first_pool, token, amount_in, &reply) {
                Err(error) => RouteOutcome::QuoteFailed { error },
                Ok(quote) => {
                    if !quote.amount_out.is_zero() {
                        run.pending = Some(quote);
                        run.pending_reply = Ghost(Some(reply));
                        return false;
                    }
                    RouteOutcome::FirstQuoteZero
                },
            },
            Some(quote) => match quote_from_reply(
                second_pool,
                quote.token_out,
                quote.amount_out,
                &reply,
            ) {
                Err(error) => RouteOutcome::QuoteFailed { error },
                Ok(last) => evaluate_route(
                    &self.cfg,
                    first_pool,
                    second_pool,
                    token,
                    amount_in,
                    &quote,
                    &last,
                    unix_ts,
                ),
            },
        };
        proof {
            assert(outcome@ == route_verdict(self.cfg, route, evidence));
            assert(run.at < step_models(run.steps@).len() == run.steps.len());
            lemma_route_done(self.cfg, run.at as int, run.evidence@, evidence);
        }
        let ghost before = outcome_models(run.outcomes@);
        run.outcomes.push(outcome);
        run.at = run.at + 1;
        run.pending_reply = Ghost(None);
        run.evidence = Ghost(run.evidence@.push(evidence));
        proof {
            assert(outcome_models(run.outcomes@) =~= before.push(outcome@));
        }
        true
    }

    /// The debug record of the step that was done last: the step and its reason,
    /// where the debug switch is on.
    pub fn debug_record<'a>(&self, run: &'a ScanRun) -> (r: Option<(&'a ScanStep, &'static str)>)
        requires
            run.wf(self.spec_cfg()),
        ensures
            r is Some <==> self.spec_cfg().debug_quotes && run.spec_at() > 0,
            r matches Some(record) ==> (record.0@, record.1@) == debug_records(
                self.spec_cfg(),
                agenda(self.spec_cfg()).take(run.spec_at() as int),
                run.spec_evidence(),
            ).last(),
    {
        if !self.cfg.debug_quotes || run.at == 0 {
            return None;
        }
        let ghost done = agenda(self.cfg).take(run.at as int);
        proof {
            assert(step_models(run.steps@)[run.at - 1] == run.steps@[run.at - 1]@);
            assert(done.drop_last() =~= agenda(self.cfg).take(run.at - 1));
            assert(done.take(run.at - 1) =~= done.drop_last());
            assert(!(agenda(self.cfg)[run.at - 1] is BadAmount));
        }
        let step = &run.steps[run.at - 1];
        match step.skip_reason() {
            Some(reason) => Some((step, reason)),
            None => {
                proof {
                    assert(routes(done) == routes(done.drop_last()).push(done.last()));
                    assert(outcome_models(run.outcomes@).len() == routes(done).len());
                }
                let n = run.outcomes.len();
                proof {
                    assert(outcome_models(run.outcomes@)[n - 1] == run.outcomes@[n - 1]@);
                }
                Some((step, run.outcomes[n - 1].reason()))
            },
        }
    }

    /// Ends a scan that has gone through everything: the opportunities it found,
    /// most promising first.
    pub fn finish(&self, run: ScanRun) -> (r: Vec<Opportunity>)
        requires
            run.wf(self.spec_cfg()),
            run.spec_at() >= agenda(self.spec_cfg()).len(),
        ensures
            ranked_from(findings(self.spec_cfg(), run.spec_evidence()), models(r@)),
    {
        let ghost all = outcome_models(run.outcomes@);
        let mut found: Vec<Opportunity> = Vec::new();
        for outcome in it: run.outcomes
            invariant
                all == outcome_models(it.seq()),
                models(found@) == profitable(all.take(it.index() as int)),
        {
            let ghost before = models(found@);
            proof {
                assert(all.take(it.index() + 1).drop_last() =~= all.take(it.index() as int));
            }
            match outcome {
                RouteOutcome::Profitable { opportunity } => {
                    found.push(opportunity);
                    assert(models(found@) =~= before.push(opportunity@));
                },
                _ => {},
            }
        }
        proof {
            assert(all.take(all.len() as int) =~= all);
            assert(agenda(self.cfg).take(run.at as int) =~= agenda(self.cfg));
        }
        rank(found)
    }
}

/// In every state of a scan, the agenda has been followed and what became of each
/// route follows from what the chain answered for it. In the middle of a route, the
/// first quote that was kept follows from what the chain answered and gives
/// something.
pub proof fn law_scan_follows_evidence(cfg: BotConfig, run: ScanRun)
    requires
        run.wf(cfg),
    ensures
        run.spec_at() <= agenda(cfg).len(),
        run.spec_evidence().len() == routes(agenda(cfg).take(run.spec_at() as int)).len(),
        run.spec_verdicts() == verdicts(
            cfg,
            routes(agenda(cfg).take(run.spec_at() as int)),
            run.spec_evidence(),
        ),
        forall|k: int|
            0 <= k < run.spec_evidence().len() ==> evidence_complete(
                cfg,
                #[trigger] routes(agenda(cfg).take(run.spec_at() as int))[k],
                run.spec_evidence()[k],
            ),
        forall|k: int| 0 <= k < run.spec_at() ==> !(#[trigger] agenda(cfg)[k] is BadAmount),
        run.spec_pending() is None ==> run.spec_pending_reply() is None,
        run.spec_pending() matches Some(quote) ==> {
            &&& at_route(cfg, run)
            &&& quote.amount_out > 0
            &&& run.spec_pending_reply() matches Some(reply)
            &&& reply_answers(
                cfg.pools@[agenda(cfg)[run.spec_at() as int]->Route_first],
                reply,
            )
            &&& first_quote(cfg, agenda(cfg)[run.spec_at() as int], reply) == Ok::<
                QuoteView,
                QuoteFault,
            >(quote)
        },
{
    assert(step_models(run.steps@).len() == run.steps@.len());
}

/// A scan ends with an error exactly where some amount cannot be read, and the
/// error is that of the first such amount. Where every amount can be read it goes
/// through everything.
pub proof fn law_scan_fails_exactly_on_unreadable_amount(
    cfg: BotConfig,
    run: ScanRun,
    action: ScanAction,
)
    requires
        run.wf(cfg),
        action_is(cfg, run, action),
    ensures
        action matches ScanAction::Abort { error } ==> bad_amount(cfg.trade_sizes@, 0) == Some(
            error@,
        ),
        action is Abort ==> exists|t: int|
            0 <= t < cfg.trade_sizes@.len() && dec_str_result(
                (#[trigger] cfg.trade_sizes@[t]).amount_wei@,
            ) is Err,
        action is Finish ==> forall|t: int|
            0 <= t < cfg.trade_sizes@.len() ==> dec_str_result(
                (#[trigger] cfg.trade_sizes@[t]).amount_wei@,
            ) is Ok,
{
    law_scan_follows_evidence(cfg, run);
    law_error_exactly_on_unreadable_amount(cfg);
    if action is Abort {
        assert(agenda(cfg)[run.spec_at() as int] is BadAmount);
    }
}

/// Whether `o` is what taking the candidate route through the pools `first` and
/// `second` earns.
pub open spec fn earned_on(
    cfg: BotConfig,
    trade: int,
    first: int,
    second: int,
    o: OpportunityView,
) -> bool {
    &&& is_candidate(cfg, trade, first, second, o.amount_in)
    &&& o.token_start == cfg.trade_sizes@[trade].token
    &&& o.first_pool == cfg.pools@[first].spec_name()
    &&& o.second_pool == cfg.pools@[second].spec_name()
    &&& Some(o.token_mid) == spec_other_token(
        cfg.pools@[first].spec_token0(),
        cfg.pools@[first].spec_token1(),
        o.token_start,
    )
    &&& Some(o.token_start) == spec_other_token(
        cfg.pools@[second].spec_token0(),
        cfg.pools@[second].spec_token1(),
        o.token_mid,
    )
    &&& o.legs == seq![
        pool_leg(cfg.pools@[first], o.token_start, o.token_mid),
        pool_leg(cfg.pools@[second], o.token_mid, o.token_start),
    ]
}

/// Whether the figures of `o` are right and good enough: it ends with more than
/// went in, gas is deducted exactly where it is paid in the start token, and what
/// is left reaches the threshold.
pub open spec fn worth_taking(cfg: BotConfig, o: OpportunityView) -> bool {
    &&& o.amount_out > o.amount_in
    &&& o.gross_profit_wei == delta(o.amount_out, o.amount_in)
    &&& o.gas_adjusted == (cfg.native_wrapped_token == Some(o.token_start))
    &&& o.estimated_net_profit_wei == if o.gas_adjusted {
        o.gross_profit_wei - saturated(gas_cost(cfg))
    } else {
        o.gross_profit_wei
    }
    &&& o.profit_bps == profit_bps(o.estimated_net_profit_wei, o.amount_in)
    &&& o.profit_bps >= cfg.min_profit_bps
}

/// The two swaps of a route form a closed loop: the second takes in what the
/// first gives out, and gives out what the first took in.
pub open spec fn closed_loop(o: OpportunityView) -> bool {
    &&& o.legs.len() == 2
    &&& o.legs[0].token_in == o.token_start
    &&& o.legs[0].token_out == o.token_mid
    &&& o.legs[1].token_in == o.token_mid
    &&& o.legs[1].token_out == o.token_start
}

/// Whether `o` is a closed loop on a candidate route, and worth taking.
pub open spec fn sound(cfg: BotConfig, o: OpportunityView) -> bool {
    &&& closed_loop(o)
    &&& worth_taking(cfg, o)
    &&& exists|trade: int, first: int, second: int| earned_on(cfg, trade, first, second, o)
}

/// A route that is found profitable is a closed loop and worth taking.
pub proof fn law_profitable_route_is_sound(
    cfg: BotConfig,
    route: Step,
    evidence: RouteEvidence,
    o: OpportunityView,
)
    requires
        route is Route,
        is_candidate(
            cfg,
            route->Route_trade,
            route->Route_first,
            route->Route_second,
            route->Route_amount_in,
        ),
        evidence_complete(cfg, route, evidence),
        route_verdict(cfg, route, evidence) == (Verdict::Profitable { opportunity: o }),
    ensures
        sound(cfg, o),
        o.unix_ts == evidence.unix_ts,
        o.amount_in == route->Route_amount_in,
{
    let trade = route->Route_trade;
    let first = route->Route_first;
    let second = route->Route_second;
    let token = cfg.trade_sizes@[trade].token;
    lemma_quote_tokens(cfg.pools@[first], token, route->Route_amount_in, evidence.first);
    assert(earned_on(cfg, trade, first, second, o));
}

/// With a configuration that was accepted, an opportunity goes through two
/// different tokens.
pub proof fn law_opportunity_changes_token(cfg: BotConfig, o: OpportunityView)
    requires
        cfg.fault() is None,
        sound(cfg, o),
    ensures
        o.token_mid != o.token_start,
{
    law_valid_configurations(cfg);
    let (trade, first, second) = choose|trade: int, first: int, second: int|
        earned_on(cfg, trade, first, second, o);
    assert(cfg.pools@[first].spec_token0() != cfg.pools@[first].spec_token1());
}

/// Two pools with the same tokens always form a closed loop: a candidate route that
/// is quoted to its end comes back to the token that it started with.
pub proof fn law_candidate_routes_close(cfg: BotConfig, route: Step, evidence: RouteEvidence)
    requires
        route is Route,
        is_candidate(
            cfg,
            route->Route_trade,
            route->Route_first,
            route->Route_second,
            route->Route_amount_in,
        ),
        evidence_complete(cfg, route, evidence),
    ensures
        !(route_verdict(cfg, route, evidence) is NotClosed),
{
    let token = cfg.trade_sizes@[route->Route_trade].token;
    let first_pool = cfg.pools@[route->Route_first];
    let second_pool = cfg.pools@[route->Route_second];
    lemma_quote_tokens(first_pool, token, route->Route_amount_in, evidence.first);
    if let Ok(first) = first_quote(cfg, route, evidence.first) {
        if first.amount_out != 0 {
            lemma_quote_tokens(
                second_pool,
                first.token_out,
                first.amount_out,
                evidence.second->0,
            );
        }
    }
}

/// Each opportunity among verdicts is the verdict on some route.
proof fn lemma_profitable_is_verdict(verdicts: Seq<Verdict>, k: int) -> (j: int)
    requires
        0 <= k < profitable(verdicts).len(),
    ensures
        0 <= j < verdicts.len(),
        verdicts[j] == (Verdict::Profitable { opportunity: profitable(verdicts)[k] }),
    decreases verdicts.len(),
{
    let before = profitable(verdicts.drop_last());
    if k < before.len() {
        let j = lemma_profitable_is_verdict(verdicts.drop_last(), k);
        assert(verdicts.drop_last()[j] == verdicts[j]);
        j
    } else {
        verdicts.len() - 1
    }
}

/// Each profitable verdict is among the opportunities.
proof fn lemma_verdict_is_profitable(verdicts: Seq<Verdict>, j: int) -> (k: int)
    requires
        0 <= j < verdicts.len(),
        verdicts[j] is Profitable,
    ensures
        0 <= k < profitable(verdicts).len(),
        profitable(verdicts)[k] == verdicts[j]->opportunity,
    decreases verdicts.len(),
{
    let before = profitable(verdicts.drop_last());
    if j < verdicts.len() - 1 {
        let k = lemma_verdict_is_profitable(verdicts.drop_last(), j);
        assert(verdicts.drop_last()[j] == verdicts[j]);
        k
    } else {
        before.len() as int
    }
}

/// Each route among steps is one of the steps.
pub proof fn lemma_route_is_step(steps: Seq<Step>, j: int) -> (i: int)
    requires
        0 <= j < routes(steps).len(),
    ensures
        0 <= i < steps.len(),
        steps[i] == routes(steps)[j],
        steps[i] is Route,
    decreases steps.len(),
{
    let before = routes(steps.drop_last());
    if j < before.len() {
        let i = lemma_route_is_step(steps.drop_last(), j);
        assert(steps.drop_last()[i] == steps[i]);
        i
    } else {
        steps.len() - 1
    }
}

/// What a scan reports is sound: every opportunity is a closed loop through two
/// configured pools, ends with more than went in, and reaches the threshold after
/// the gas that is paid in its start token. Nothing that was found profitable is
/// left out, nothing else is put in, and the most promising come first.
pub proof fn law_reported_opportunities(
    cfg: BotConfig,
    run: ScanRun,
    reported: Seq<OpportunityView>,
)
    requires
        run.wf(cfg),
        run.spec_at() >= agenda(cfg).len(),
        ranked_from(findings(cfg, run.spec_evidence()), reported),
    ensures
        forall|k: int| 0 <= k < reported.len() ==> sound(cfg, #[trigger] reported[k]),
        forall|o: OpportunityView| #[trigger]
            reported.contains(o) <==> run.spec_verdicts().contains(
                Verdict::Profitable { opportunity: o },
            ),
        forall|a: int, b: int|
            0 <= a <= b < reported.len() ==> (#[trigger] reported[a]).estimated_net_profit_wei >= (
            #[trigger] reported[b]).estimated_net_profit_wei,
{
    law_scan_follows_evidence(cfg, run);
    assert(agenda(cfg).take(agenda(cfg).len() as int) =~= agenda(cfg));
    let all = routes(agenda(cfg));
    let found = findings(cfg, run.spec_evidence());
    law_ranking_orders_findings(found, reported);
    assert forall|k: int| 0 <= k < reported.len() implies sound(cfg, #[trigger] reported[k]) by {
        assert(reported.contains(reported[k]));
        let m = choose|m: int| 0 <= m < found.len() && found[m] == reported[k];
        let j = lemma_profitable_is_verdict(run.spec_verdicts(), m);
        let i = lemma_route_is_step(agenda(cfg), j);
        lemma_agenda_route(cfg, i);
        assert(evidence_complete(cfg, all[j], run.spec_evidence()[j]));
        law_profitable_route_is_sound(cfg, all[j], run.spec_evidence()[j], reported[k]);
    }
    assert forall|o: OpportunityView| #[trigger]
        reported.contains(o) <==> run.spec_verdicts().contains(
            Verdict::Profitable { opportunity: o },
        ) by {
        if found.contains(o) {
            let m = choose|m: int| 0 <= m < found.len() && found[m] == o;
            let j = lemma_profitable_is_verdict(run.spec_verdicts(), m);
            assert(run.spec_verdicts()[j] == (Verdict::Profitable { opportunity: o }));
        }
        if run.spec_verdicts().contains(Verdict::Profitable { opportunity: o }) {
            let j = choose|j: int|
                0 <= j < run.spec_verdicts().len() && run.spec_verdicts()[j] == (
                Verdict::Profitable { opportunity: o });
            let m = lemma_verdict_is_profitable(run.spec_verdicts(), j);
            assert(found[m] == o);
        }
    }
}

/// An execution demands no more than was quoted: what a reported opportunity gives
/// out is at least the least output that its execution accepts.
pub proof fn law_execution_demands_no_more_than_quoted(cfg: BotConfig, o: OpportunityView)
    requires
        worth_taking(cfg, o),
        o.amount_in <= i128::MAX,
    ensures
        least_output(o.amount_in, cfg.min_profit_bps as nat) <= o.amount_out,
{
    let bps = cfg.min_profit_bps as int;
    let a = o.amount_in as int;
    let out = o.amount_out as int;
    let net = o.estimated_net_profit_wei;
    assert(gas_cost(cfg) >= 0) by (nonlinear_arith);
    if bps == 0 {
        assert(a * 10_000 / 10_000 == a);
    } else if a == 0 {
        assert(a * (10_000 + bps) == 0) by (nonlinear_arith)
            requires
                a == 0,
        ;
    } else {
        lemma_bps_reached(net, a, bps);
        assert(a * (10_000 + bps) <= out * 10_000) by (nonlinear_arith)
            requires
                net * 10_000 >= bps * a,
                net <= out - a,
        ;
    }
}

/// A profit that reaches a positive threshold is at least that share of the input.
proof fn lemma_bps_reached(net: int, a: int, bps: int)
    requires
        a > 0,
        bps > 0,
        toward_zero(net * 10_000, a) >= bps,
    ensures
        net > 0,
        net * 10_000 >= bps * a,
{
    if net * 10_000 < 0 {
        vstd::arithmetic::div_mod::lemma_div_pos_is_pos(-(net * 10_000), a);
    } else {
        vstd::arithmetic::div_mod::lemma_fundamental_div_mod(net * 10_000, a);
        let q = (net * 10_000) / a;
        assert(a * q >= bps * a) by (nonlinear_arith)
            requires
                q >= bps,
                a > 0,
        ;
        assert(bps * a > 0) by (nonlinear_arith)
            requires
                bps > 0,
                a > 0,
        ;
    }
}

/// With the debug switch off a scan logs no debug record. With the switch on it
/// logs exactly one record for each pool that lacks the start token of a trade, and
/// exactly one for each pair of a pool that trades it with another pool.
pub proof fn law_one_debug_record_each(cfg: BotConfig, evidence: Seq<RouteEvidence>, step: Step)
    requires
        bad_amount(cfg.trade_sizes@, 0) is None,
        !(step is BadAmount),
    ensures
        !cfg.debug_quotes ==> debug_records(cfg, agenda(cfg), evidence).len() == 0,
        cfg.debug_quotes ==> (arises(cfg, step) <==> exists|k: int|
            0 <= k < debug_records(cfg, agenda(cfg), evidence).len() && (#[trigger] debug_records(
                cfg,
                agenda(cfg),
                evidence,
            )[k]).0 == step),
        forall|k: int, l: int|
            0 <= k < l < debug_records(cfg, agenda(cfg), evidence).len() ==> (
            #[trigger] debug_records(cfg, agenda(cfg), evidence)[k]).0 != (#[trigger] debug_records(
                cfg,
                agenda(cfg),
                evidence,
            )[l]).0,
{
    let records = debug_records(cfg, agenda(cfg), evidence);
    law_error_exactly_on_unreadable_amount(cfg);
    lemma_bad_amount(cfg.trade_sizes@, 0);
    law_agenda_covers_configuration(cfg, step);
    if cfg.debug_quotes {
        if agenda(cfg).contains(step) {
            let k = choose|k: int| 0 <= k < agenda(cfg).len() && agenda(cfg)[k] == step;
            assert(records[k].0 == step);
        }
        if exists|k: int| 0 <= k < records.len() && (#[trigger] records[k]).0 == step {
            let k = choose|k: int| 0 <= k < records.len() && (#[trigger] records[k]).0 == step;
            assert(agenda(cfg)[k] == step);
        }
        assert forall|k: int, l: int| 0 <= k < l < records.len() implies (
        #[trigger] records[k]).0 != (#[trigger] records[l]).0 by {
            assert(records[k].0 == agenda(cfg)[k] && records[l].0 == agenda(cfg)[l]);
            law_agenda_follows_configuration(cfg, k, l);
        }
    }
}

/// The routes among more steps are at least as many.
proof fn lemma_routes_accumulate(steps: Seq<Step>, m: int, n: int)
    requires
        0 <= m <= n <= steps.len(),
    ensures
        routes(steps.take(m)).len() <= routes(steps.take(n)).len(),
        m < n && steps[m] is Route ==> routes(steps.take(m)).len() < routes(steps.take(n)).len(),
    decreases n - m,
{
    if m < n {
        lemma_routes_accumulate(steps, m, n - 1);
        assert(steps.take(n).drop_last() =~= steps.take(n - 1));
    }
}

/// Debug records accumulate: what was logged after some steps stays as it is when
/// the scan goes on.
pub proof fn law_debug_records_accumulate(cfg: BotConfig, evidence: Seq<RouteEvidence>, n: int)
    requires
        0 <= n <= agenda(cfg).len(),
        evidence.len() == routes(agenda(cfg)).len(),
        bad_amount(cfg.trade_sizes@, 0) is None,
    ensures
        debug_records(
            cfg,
            agenda(cfg).take(n),
            evidence.take(routes(agenda(cfg).take(n)).len() as int),
        ) == debug_records(cfg, agenda(cfg), evidence).take(
            if cfg.debug_quotes {
                n
            } else {
                0
            },
        ),
{
    let all = agenda(cfg);
    let part = all.take(n);
    let known = evidence.take(routes(part).len() as int);
    law_error_exactly_on_unreadable_amount(cfg);
    lemma_bad_amount(cfg.trade_sizes@, 0);
    lemma_routes_accumulate(all, n, all.len() as int);
    assert(all.take(all.len() as int) =~= all);
    assert forall|k: int| 0 <= k < n implies step_reason(cfg, part, known, k) == step_reason(
        cfg,
        all,
        evidence,
        k,
    ) by {
        assert(part[k] == all[k]);
        assert(part.take(k) =~= all.take(k));
        lemma_routes_accumulate(all, k, n);
    }
    if cfg.debug_quotes {
        assert(debug_records(cfg, part, known) =~= debug_records(cfg, all, evidence).take(n));
    } else {
        assert(debug_records(cfg, part, known) =~= debug_records(cfg, all, evidence).take(0));
    }
}

/// The routes of a list of steps are its routes, in order: one more step adds itself
/// where it is a route, and nothing otherwise.
pub proof fn law_routes_are_picked_in_order(steps: Seq<Step>, step: Step)
    ensures
        routes(Seq::empty()) == Seq::<Step>::empty(),
        step is Route ==> routes(steps.push(step)) == routes(steps).push(step),
        !(step is Route) ==> routes(steps.push(step)) == routes(steps),
{
    assert(steps.push(step).drop_last() =~= steps);
}

/// The opportunities of a list of verdicts are its profitable ones, in order: one more
/// verdict adds its opportunity where it is profitable, and nothing otherwise.
pub proof fn law_opportunities_are_picked_in_order(verdicts: Seq<Verdict>, verdict: Verdict)
    ensures
        profitable(Seq::empty()) == Seq::<OpportunityView>::empty(),
        verdict matches Verdict::Profitable { opportunity } ==> profitable(verdicts.push(verdict))
            == profitable(verdicts).push(opportunity),
        !(verdict is Profitable) ==> profitable(verdicts.push(verdict)) == profitable(verdicts),
{
    assert(verdicts.push(verdict).drop_last() =~= verdicts);
}

/// The first swap of a route is quoted by its first pool, for the start token and the
/// amount of its trade. The second one is quoted by its second pool, for the token and
/// the amount that the first gives out.
pub proof fn law_quotes_of_a_route(
    cfg: BotConfig,
    trade: int,
    first: int,
    second: int,
    amount_in: nat,
    quote: QuoteView,
    reply: QuoteReply,
)
    ensures
        first_quote(cfg, Step::Route { trade, first, second, amount_in }, reply) == quote_result(
            cfg.pools@[first],
            cfg.trade_sizes@[trade].token,
            amount_in,
            reply,
        ),
        second_quote(cfg, Step::Route { trade, first, second, amount_in }, quote, reply)
            == quote_result(cfg.pools@[second], quote.token_out, quote.amount_out, reply),
{
}

/// What becomes of a route: the fault of the first quote that fails; nothing where the
/// first swap gives nothing; otherwise what its two quotes come to. The second answer
/// counts only where it was asked for.
pub proof fn law_what_becomes_of_a_route(
    cfg: BotConfig,
    trade: int,
    first: int,
    second: int,
    amount_in: nat,
    evidence: RouteEvidence,
)
    ensures
        ({
            let route = Step::Route { trade, first, second, amount_in };
            let verdict = route_verdict(cfg, route, evidence);
            let token = cfg.trade_sizes@[trade].token;
            let q1 = quote_result(cfg.pools@[first], token, amount_in, evidence.first);
            let q2 = quote_result(
                cfg.pools@[second],
                q1->Ok_0.token_out,
                q1->Ok_0.amount_out,
                evidence.second->0,
            );
            &&& q1 matches Err(fault) ==> verdict == (Verdict::QuoteFailed { fault })
            &&& q1 is Ok && q1->Ok_0.amount_out == 0 ==> verdict is FirstQuoteZero
            &&& q1 is Ok && q1->Ok_0.amount_out != 0 ==> {
                &&& q2 matches Err(fault) ==> verdict == (Verdict::QuoteFailed { fault })
                &&& q2 matches Ok(last) ==> verdict == evaluation(
                    cfg,
                    cfg.pools@[first],
                    cfg.pools@[second],
                    token,
                    amount_in,
                    q1->Ok_0,
                    last,
                    evidence.unix_ts,
                )
            }
        }),
{
}

/// Each route gets its own verdict, from its own answers, and an outcome stands for
/// each.
pub proof fn law_each_route_is_judged_by_its_answers(
    cfg: BotConfig,
    all: Seq<Step>,
    evidence: Seq<RouteEvidence>,
    outcomes: Seq<RouteOutcome>,
)
    ensures
        verdicts(cfg, all, evidence).len() == all.len(),
        forall|k: int|
            0 <= k < all.len() ==> #[trigger] verdicts(cfg, all, evidence)[k] == route_verdict(
                cfg,
                all[k],
                evidence[k],
            ),
        outcome_models(outcomes).len() == outcomes.len(),
        forall|k: int|
            0 <= k < outcomes.len() ==> #[trigger] outcome_models(outcomes)[k] == outcomes[k]@,
        findings(cfg, evidence) == profitable(verdicts(cfg, routes(agenda(cfg)), evidence)),
{
}

/// What the scan does at each step: it passes over a step without a route, asks the
/// first pool of a route for what a quote of the start amount depends on, asks the
/// second pool for what a quote of the first output depends on, ends with the error of
/// an amount that cannot be read, and finishes behind the last step.
pub proof fn law_what_the_scan_does_next(cfg: BotConfig, run: ScanRun, action: ScanAction)
    requires
        action_is(cfg, run, action),
    ensures
        action is Finish <==> run.spec_at() >= agenda(cfg).len(),
        run.spec_at() >= agenda(cfg).len() ==> !at_route(cfg, run),
        run.spec_at() < agenda(cfg).len() ==> {
            let step = agenda(cfg)[run.spec_at() as int];
            &&& action is Skip <==> step is MissingStartToken || step is PairMismatch
            &&& action is Abort <==> step is BadAmount
            &&& step matches Step::BadAmount { fault } ==> action->error@ == fault
            &&& action is Ask <==> step is Route
            &&& at_route(cfg, run) <==> step is Route
            &&& step matches Step::Route { trade, first, second, amount_in } ==> {
                &&& run.spec_pending() is None ==> asked_pool(cfg, run) == cfg.pools@[first]
                    && request_asks(
                    cfg.pools@[first],
                    cfg.trade_sizes@[trade].token,
                    amount_in,
                    action->request,
                )
                &&& run.spec_pending() matches Some(quote) ==> asked_pool(cfg, run)
                    == cfg.pools@[second] && request_asks(
                    cfg.pools@[second],
                    quote.token_out,
                    quote.amount_out,
                    action->request,
                )
            }
        },
{
}

/// An answer is refused exactly where it is not of the kind that was asked for, where
/// its quote cannot be computed, or where it is the second one and the profit cannot
/// be computed.
pub proof fn law_which_answers_are_refused(cfg: BotConfig, run: ScanRun, reply: QuoteReply)
    requires
        at_route(cfg, run),
    ensures
        ({
            let route = agenda(cfg)[run.spec_at() as int];
            let token = cfg.trade_sizes@[route->Route_trade].token;
            let refusal = spec_refusal(cfg, run, reply);
            &&& refusal is None <==> acceptable(cfg, run, reply)
            &&& run.spec_pending() is None ==> {
                let pool = cfg.pools@[route->Route_first];
                let amount = route->Route_amount_in;
                &&& acceptable(cfg, run, reply) <==> reply_answers(pool, reply) && reply_fits(
                    pool,
                    token,
                    amount,
                    reply,
                )
                &&& refusal == Some(Refusal::NotAnAnswer) <==> !reply_answers(pool, reply)
                &&& refusal == Some(Refusal::QuoteOverflow) <==> reply_answers(pool, reply)
                    && !reply_fits(pool, token, amount, reply)
            }
            &&& run.spec_pending() matches Some(quote) ==> {
                let pool = cfg.pools@[route->Route_second];
                let last = quote_result(pool, quote.token_out, quote.amount_out, reply);
                &&& acceptable(cfg, run, reply) <==> reply_answers(pool, reply) && reply_fits(
                    pool,
                    quote.token_out,
                    quote.amount_out,
                    reply,
                ) && (last is Ok ==> route_fits(cfg, token, route->Route_amount_in, last->Ok_0))
                &&& refusal == Some(Refusal::NotAnAnswer) <==> !reply_answers(pool, reply)
                &&& refusal == Some(Refusal::QuoteOverflow) <==> reply_answers(pool, reply)
                    && !reply_fits(pool, quote.token_out, quote.amount_out, reply)
                &&& refusal == Some(Refusal::ZeroInput) ==> route->Route_amount_in == 0
                &&& refusal == Some(Refusal::ProfitOverflow) ==> {
                    let scaled = net_profit(
                        cfg,
                        token,
                        delta(last->Ok_0.amount_out, route->Route_amount_in),
                    ) * 10_000;
                    !(-0x8000_0000_0000_0000_0000_0000_0000_0000 <= scaled
                        <= 0x7fff_ffff_ffff_ffff_ffff_ffff_ffff_ffff)
                }
            }
        }),
{
}

/// A debug record names its step and why it was passed over, or what became of the
/// route.
pub proof fn law_debug_records_give_reasons(cfg: BotConfig, evidence: Seq<RouteEvidence>, k: int)
    requires
        cfg.debug_quotes,
        0 <= k < agenda(cfg).len(),
    ensures
        ({
            let record = debug_records(cfg, agenda(cfg), evidence)[k];
            let step = agenda(cfg)[k];
            &&& record.0 == step
            &&& step is MissingStartToken ==> record.1 == "first_pool_missing_start_token"@
            &&& step is PairMismatch ==> record.1 == "pool_pair_mismatch"@
            &&& step is Route ==> record.1 == route_verdict(
                cfg,
                step,
                evidence[routes(agenda(cfg).take(k)).len() as int],
            ).spec_reason()
        }),
{
}

/// Every route that is worth it is reported, whatever the kinds of its pools: where
/// both quotes are there, the first one gives something, the second one gives more than
/// went in, and the profit after gas reaches the threshold, an opportunity with these
/// very amounts is among what the scan reports.
pub proof fn law_every_route_worth_it_is_reported(
    cfg: BotConfig,
    run: ScanRun,
    reported: Seq<OpportunityView>,
    k: int,
    first: QuoteView,
    second: QuoteView,
)
    requires
        run.wf(cfg),
        run.spec_at() >= agenda(cfg).len(),
        ranked_from(findings(cfg, run.spec_evidence()), reported),
        0 <= k < routes(agenda(cfg)).len(),
        ({
            let route = routes(agenda(cfg))[k];
            let token = cfg.trade_sizes@[route->Route_trade].token;
            let evidence = run.spec_evidence()[k];
            &&& quote_result(
                cfg.pools@[route->Route_first],
                token,
                route->Route_amount_in,
                evidence.first,
            ) == Ok::<QuoteView, QuoteFault>(first)
            &&& first.amount_out != 0
            &&& quote_result(
                cfg.pools@[route->Route_second],
                first.token_out,
                first.amount_out,
                evidence.second->0,
            ) == Ok::<QuoteView, QuoteFault>(second)
            &&& second.amount_out > route->Route_amount_in
            &&& profit_bps(
                net_profit(cfg, token, delta(second.amount_out, route->Route_amount_in)),
                route->Route_amount_in,
            ) >= cfg.min_profit_bps
        }),
    ensures
        ({
            let route = routes(agenda(cfg))[k];
            exists|r: int|
                0 <= r < reported.len() && {
                    let o = #[trigger] reported[r];
                    &&& o.token_start == cfg.trade_sizes@[route->Route_trade].token
                    &&& o.token_mid == first.token_out
                    &&& o.amount_in == route->Route_amount_in
                    &&& o.amount_after_first == first.amount_out
                    &&& o.amount_out == second.amount_out
                    &&& o.first_pool == cfg.pools@[route->Route_first].spec_name()
                    &&& o.second_pool == cfg.pools@[route->Route_second].spec_name()
                    &&& o.unix_ts == run.spec_evidence()[k].unix_ts
                }
        }),
{
    law_scan_follows_evidence(cfg, run);
    assert(agenda(cfg).take(agenda(cfg).len() as int) =~= agenda(cfg));
    let all = routes(agenda(cfg));
    let i = lemma_route_is_step(agenda(cfg), k);
    lemma_agenda_route(cfg, i);
    let route = all[k];
    let evidence = run.spec_evidence()[k];
    assert(evidence_complete(cfg, all[k], evidence));
    law_candidate_routes_close(cfg, route, evidence);
    let verdict = route_verdict(cfg, route, evidence);
    assert(run.spec_verdicts()[k] == verdict);
    law_every_route_above_the_threshold_is_profitable(
        cfg,
        cfg.pools@[route->Route_first],
        cfg.pools@[route->Route_second],
        cfg.trade_sizes@[route->Route_trade].token,
        route->Route_amount_in,
        first,
        second,
        evidence.unix_ts,
    );
    assert(verdict is Profitable);
    let o = verdict->opportunity;
    law_reported_opportunities(cfg, run, reported);
    assert(run.spec_verdicts().contains(Verdict::Profitable { opportunity: o }));
    assert(reported.contains(o));
    let r = choose|r: int| 0 <= r < reported.len() && reported[r] == o;
    assert(reported[r] == o);
}

/// The swaps of a reported opportunity are executed on the pools that were quoted: each
/// has the router of its pool, kind 0 without a fee on a V2 pool, kind 1 and the fee
/// tier that the quoter is asked for on a V3 pool.
pub proof fn law_reported_swaps_name_their_pools(
    cfg: BotConfig,
    run: ScanRun,
    reported: Seq<OpportunityView>,
    r: int,
)
    requires
        run.wf(cfg),
        run.spec_at() >= agenda(cfg).len(),
        ranked_from(findings(cfg, run.spec_evidence()), reported),
        0 <= r < reported.len(),
    ensures
        exists|i: int, j: int|
            #![trigger cfg.pools@[i], cfg.pools@[j]]
            {
                let legs = reported[r].legs;
                &&& 0 <= i < cfg.pools@.len()
                &&& 0 <= j < cfg.pools@.len()
                &&& i != j
                &&& legs.len() == 2
                &&& reported[r].first_pool == cfg.pools@[i].spec_name()
                &&& reported[r].second_pool == cfg.pools@[j].spec_name()
                &&& legs[0].token_in == reported[r].token_start
                &&& legs[0].token_out == reported[r].token_mid
                &&& legs[1].token_in == reported[r].token_mid
                &&& legs[1].token_out == reported[r].token_start
                &&& cfg.pools@[i] matches PoolConfig::V2 { router, .. } ==> legs[0].kind == 0
                    && legs[0].fee == 0 && legs[0].router == router
                &&& cfg.pools@[i] matches PoolConfig::V3 { router, fee, .. } ==> legs[0].kind == 1
                    && legs[0].fee == fee && legs[0].router == router
                &&& cfg.pools@[j] matches PoolConfig::V2 { router, .. } ==> legs[1].kind == 0
                    && legs[1].fee == 0 && legs[1].router == router
                &&& cfg.pools@[j] matches PoolConfig::V3 { router, fee, .. } ==> legs[1].kind == 1
                    && legs[1].fee == fee && legs[1].router == router
            },
{
    law_reported_opportunities(cfg, run, reported);
    let o = reported[r];
    assert(sound(cfg, o));
    let (trade, i, j) = choose|trade: int, i: int, j: int| earned_on(cfg, trade, i, j, o);
    law_swap_names_its_pool(cfg.pools@[i], o.token_start, o.token_mid);
    law_swap_names_its_pool(cfg.pools@[j], o.token_mid, o.token_start);
    assert(cfg.pools@[i] == cfg.pools@[i] && cfg.pools@[j] == cfg.pools@[j]);
}

/// Every reported opportunity earns: more comes out than went in, the gross profit is
/// the difference, gas is taken off exactly in the wrapped native token, and what is
/// left reaches the threshold, by the two quotes of a route of the configuration.
pub proof fn law_reported_figures(
    cfg: BotConfig,
    run: ScanRun,
    reported: Seq<OpportunityView>,
    r: int,
)
    requires
        run.wf(cfg),
        run.spec_at() >= agenda(cfg).len(),
        ranked_from(findings(cfg, run.spec_evidence()), reported),
        0 <= r < reported.len(),
    ensures
        reported[r].amount_out > reported[r].amount_in,
        reported[r].gross_profit_wei == delta(reported[r].amount_out, reported[r].amount_in),
        reported[r].gas_adjusted <==> cfg.native_wrapped_token == Some(reported[r].token_start),
        !reported[r].gas_adjusted ==> reported[r].estimated_net_profit_wei
            == reported[r].gross_profit_wei,
        reported[r].gas_adjusted ==> reported[r].estimated_net_profit_wei
            == reported[r].gross_profit_wei - saturated(
            (cfg.gas_limit * cfg.max_gas_price_gwei * 1_000_000_000) as nat,
        ),
        reported[r].profit_bps == profit_bps(
            reported[r].estimated_net_profit_wei,
            reported[r].amount_in,
        ),
        reported[r].profit_bps >= cfg.min_profit_bps,
        exists|k: int|
            #![trigger run.spec_evidence()[k]]
            0 <= k < routes(agenda(cfg)).len() && {
                let route = routes(agenda(cfg))[k];
                let first = quote_result(
                    cfg.pools@[route->Route_first],
                    cfg.trade_sizes@[route->Route_trade].token,
                    route->Route_amount_in,
                    run.spec_evidence()[k].first,
                );
                &&& first is Ok
                &&& first->Ok_0.amount_out == reported[r].amount_after_first
                &&& first->Ok_0.token_out == reported[r].token_mid
                &&& route->Route_amount_in == reported[r].amount_in
                &&& quote_result(
                    cfg.pools@[route->Route_second],
                    first->Ok_0.token_out,
                    first->Ok_0.amount_out,
                    run.spec_evidence()[k].second->0,
                ) is Ok
                &&& quote_result(
                    cfg.pools@[route->Route_second],
                    first->Ok_0.token_out,
                    first->Ok_0.amount_out,
                    run.spec_evidence()[k].second->0,
                )->Ok_0.amount_out == reported[r].amount_out
            },
{
    law_reported_opportunities(cfg, run, reported);
    law_scan_follows_evidence(cfg, run);
    let o = reported[r];
    assert(sound(cfg, o));
    law_gas_is_deducted_from_native_profit(cfg, o.token_start, o.gross_profit_wei);
    assert(agenda(cfg).take(agenda(cfg).len() as int) =~= agenda(cfg));
    assert(reported.contains(o));
    let k = choose|k: int|
        0 <= k < run.spec_verdicts().len() && run.spec_verdicts()[k] == (Verdict::Profitable {
            opportunity: o,
        });
    let route = routes(agenda(cfg))[k];
    assert(route_verdict(cfg, route, run.spec_evidence()[k]) == run.spec_verdicts()[k]);
    assert(run.spec_evidence()[k] == run.spec_evidence()[k]);
}

} // verus!
