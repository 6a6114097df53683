//! What a scan goes through, in order: every trade size, every pool that could
//! be the first one, every pool that could be the second one.

use crate::config::{
    bad_amount, law_valid_configurations, lemma_bad_amount, parse_u256_dec, BotConfig, ConfigError,
    ConfigFault, PoolConfig,
};
use crate::opportunity::{same_token_pair, spec_same_token_pair};
use crate::types::{dec_str_result, Address, DecimalError, U256};
use vstd::prelude::*;

verus! {

/// The model of one step of a scan.
pub enum Step {
    MissingStartToken { trade: int, first: int, amount_in: nat },
    PairMismatch { trade: int, first: int, second: int, amount_in: nat },
    Route { trade: int, first: int, second: int, amount_in: nat },
    BadAmount { fault: ConfigFault },
}

/// One step of a scan. Trades and pools are given by their positions in the
/// configuration.
#[derive(Debug)]
pub enum ScanStep {
    /// The pool does not trade the start token: nothing to quote.
    MissingStartToken { trade: usize, first: usize, amount_in: U256 },
    /// The two pools do not trade the same tokens: nothing to quote.
    PairMismatch { trade: usize, first: usize, second: usize, amount_in: U256 },
    /// A route to quote: through the first pool and back through the second.
    Route { trade: usize, first: usize, second: usize, amount_in: U256 },
    /// The amount of the trade cannot be read: the scan ends with this error.
    BadAmount { error: ConfigError },
}

impl View for ScanStep {
    type V = Step;

    open spec fn view(&self) -> Step {
        match *self {
            ScanStep::MissingStartToken { trade, first, amount_in } => Step::MissingStartToken {
                trade: trade as int,
                first: first as int,
                amount_in: amount_in@,
            },
            ScanStep::PairMismatch { trade, first, second, amount_in } => Step::PairMismatch {
                trade: trade as int,
                first: first as int,
                second: second as int,
                amount_in: amount_in@,
            },
            ScanStep::Route { trade, first, second, amount_in } => Step::Route {
                trade: trade as int,
                first: first as int,
                second: second as int,
                amount_in: amount_in@,
            },
            ScanStep::BadAmount { error } => Step::BadAmount { fault: error@ },
        }
    }
}

impl Step {
    /// The short name under which a skipped step is logged.
    pub open spec fn spec_skip_reason(self) -> Option<Seq<char>> {
        match self {
            Step::MissingStartToken { .. } => Some("first_pool_missing_start_token"@),
            Step::PairMismatch { .. } => Some("pool_pair_mismatch"@),
            _ => None,
        }
    }
}

impl ScanStep {
    /// The short name under which a skipped step is logged.
    pub fn skip_reason(&self) -> (r: Option<&'static str>)
        ensures
            match self@.spec_skip_reason() {
                Some(reason) => r matches Some(s) && s@ == reason,
                None => r is None,
            },
    {
        match self {
            ScanStep::MissingStartToken { .. } => Some("first_pool_missing_start_token"),
            ScanStep::PairMismatch { .. } => Some("pool_pair_mismatch"),
            ScanStep::Route { .. } => None,
            ScanStep::BadAmount { .. } => None,
        }
    }
}

/// The models of `steps`, in the same order.
pub open spec fn step_models(steps: Seq<ScanStep>) -> Seq<Step> {
    Seq::new(steps.len(), |k: int| steps[k]@)
}

/// The step for two different pools.
pub open spec fn pair_step(
    pools: Seq<PoolConfig>,
    trade: int,
    first: int,
    second: int,
    amount_in: nat,
) -> Step {
    if spec_same_token_pair(pools[first], pools[second]) {
        Step::Route { trade, first, second, amount_in }
    } else {
        Step::PairMismatch { trade, first, second, amount_in }
    }
}

/// The steps for one first pool: every other pool, from position `from` on.
pub open spec fn second_steps(
    pools: Seq<PoolConfig>,
    trade: int,
    first: int,
    amount_in: nat,
    from: int,
) -> Seq<Step>
    decreases pools.len() - from,
{
    if from >= pools.len() {
        Seq::empty()
    } else if from == first {
        second_steps(pools, trade, first, amount_in, from + 1)
    } else {
        seq![pair_step(pools, trade, first, from, amount_in)] + second_steps(
            pools,
            trade,
            first,
            amount_in,
            from + 1,
        )
    }
}

/// The steps for one trade: every first pool, from position `from` on.
pub open spec fn first_steps(
    pools: Seq<PoolConfig>,
    token: Address,
    trade: int,
    amount_in: nat,
    from: int,
) -> Seq<Step>
    decreases pools.len() - from,
{
    if from >= pools.len() {
        Seq::empty()
    } else if pools[from].spec_contains_token(token) {
        second_steps(pools, trade, from, amount_in, 0) + first_steps(
            pools,
            token,
            trade,
            amount_in,
            from + 1,
        )
    } else {
        seq![Step::MissingStartToken { trade, first: from, amount_in }] + first_steps(
            pools,
            token,
            trade,
            amount_in,
            from + 1,
        )
    }
}

/// The steps for every trade, from position `from` on, up to the first one whose
/// amount cannot be read.
pub open spec fn trade_steps(cfg: BotConfig, from: int) -> Seq<Step>
    decreases cfg.trade_sizes@.len() - from,
{
    if from >= cfg.trade_sizes@.len() {
        Seq::empty()
    } else {
        let trade = cfg.trade_sizes@[from];
        match dec_str_result(trade.amount_wei@) {
            Err(cause) => seq![
                Step::BadAmount {
                    fault: ConfigFault::InvalidAmount { value: trade.amount_wei@, cause },
                },
            ],
            Ok(amount_in) => first_steps(cfg.pools@, trade.token, from, amount_in, 0)
                + trade_steps(cfg, from + 1),
        }
    }
}

/// Everything that a scan with this configuration goes through, in order.
pub open spec fn agenda(cfg: BotConfig) -> Seq<Step> {
    trade_steps(cfg, 0)
}

/// Appends the steps for one first pool.
fn push_second_steps(
    steps: &mut Vec<ScanStep>,
    pools: &Vec<PoolConfig>,
    trade: usize,
    first: usize,
    amount_in: U256,
)
    requires
        first < pools.len(),
    ensures
        step_models(final(steps)@) == step_models(old(steps)@) + second_steps(
            pools@,
            trade as int,
            first as int,
            amount_in@,
            0,
        ),
{
    let ghost before = step_models(steps@);
    let mut second: usize = 0;
    while second < pools.len()
        invariant
            second <= pools.len(),
            first < pools.len(),
            before == step_models(old(steps)@),
            before + second_steps(pools@, trade as int, first as int, amount_in@, 0)
                == step_models(steps@) + second_steps(
                pools@,
                trade as int,
                first as int,
                amount_in@,
                second as int,
            ),
        decreases pools.len() - second,
    {
        let ghost current = step_models(steps@);
        if second != first {
            if same_token_pair(&pools[first], &pools[second]) {
                steps.push(ScanStep::Route { trade, first, second, amount_in });
            } else {
                steps.push(ScanStep::PairMismatch { trade, first, second, amount_in });
            }
            proof {
                let step = pair_step(pools@, trade as int, first as int, second as int, amount_in@);
                let rest = second_steps(
                    pools@,
                    trade as int,
                    first as int,
                    amount_in@,
                    second + 1,
                );
                assert(step_models(steps@) =~= current.push(step));
                assert(current + (seq![step] + rest) =~= step_models(steps@) + rest);
            }
        }
        second += 1;
    }
    assert(step_models(steps@) + Seq::<Step>::empty() =~= step_models(steps@));
}

/// Appends the steps for one trade.
fn push_first_steps(
    steps: &mut Vec<ScanStep>,
    pools: &Vec<PoolConfig>,
    token: Address,
    trade: usize,
    amount_in: U256,
)
    ensures
        step_models(final(steps)@) == step_models(old(steps)@) + first_steps(
            pools@,
            token,
            trade as int,
            amount_in@,
            0,
        ),
{
    let ghost before = step_models(steps@);
    let mut first: usize = 0;
    while first < pools.len()
        invariant
            first <= pools.len(),
            before == step_models(old(steps)@),
            before + first_steps(pools@, token, trade as int, amount_in@, 0) == step_models(steps@)
                + first_steps(pools@, token, trade as int, amount_in@, first as int),
        decreases pools.len() - first,
    {
        let ghost current = step_models(steps@);
        let ghost rest = first_steps(pools@, token, trade as int, amount_in@, first + 1);
        if pools[first].contains_token(token) {
            push_second_steps(steps, pools, trade, first, amount_in);
            proof {
                let inner = second_steps(pools@, trade as int, first as int, amount_in@, 0);
                assert(current + (inner + rest) =~= step_models(steps@) + rest);
            }
        } else {
            steps.push(ScanStep::MissingStartToken { trade, first, amount_in });
            proof {
                let step = Step::MissingStartToken {
                    trade: trade as int,
                    first: first as int,
                    amount_in: amount_in@,
                };
                assert(step_models(steps@) =~= current.push(step));
                assert(current + (seq![step] + rest) =~= step_models(steps@) + rest);
            }
        }
        first += 1;
    }
    assert(step_models(steps@) + Seq::<Step>::empty() =~= step_models(steps@));
}

/// Everything that a scan with this configuration goes through, in order.
pub fn scan_steps(cfg: &BotConfig) -> (r: Vec<ScanStep>)
    ensures
        step_models(r@) == agenda(*cfg),
{
    let mut steps: Vec<ScanStep> = Vec::new();
    let mut trade: usize = 0;
    assert(step_models(steps@) + trade_steps(*cfg, 0) =~= trade_steps(*cfg, 0));
    while trade < cfg.trade_sizes.len()
        invariant
            trade <= cfg.trade_sizes.len(),
            agenda(*cfg) == step_models(steps@) + trade_steps(*cfg, trade as int),
        decreases cfg.trade_sizes.len() - trade,
    {
        let ghost current = step_models(steps@);
        match parse_u256_dec(cfg.trade_sizes[trade].amount_wei.as_str()) {
            Err(error) => {
                steps.push(ScanStep::BadAmount { error });
                assert(step_models(steps@) =~= agenda(*cfg));
                return steps;
            },
            Ok(amount_in) => {
                push_first_steps(
                    &mut steps,
                    &cfg.pools,
                    cfg.trade_sizes[trade].token,
                    trade,
                    amount_in,
                );
                proof {
                    let inner = first_steps(
                        cfg.pools@,
                        cfg.trade_sizes@[trade as int].token,
                        trade as int,
                        amount_in@,
                        0,
                    );
                    let rest = trade_steps(*cfg, trade + 1);
                    assert(current + (inner + rest) =~= step_models(steps@) + rest);
                }
            },
        }
        trade += 1;
    }
    assert(step_models(steps@) + Seq::<Step>::empty() =~= step_models(steps@));
    steps
}

/// Whether every amount of a trade from position `from` up to `to` can be read.
pub open spec fn amounts_readable(cfg: BotConfig, from: int, to: int) -> bool {
    forall|t: int|
        from <= t <= to ==> dec_str_result(
            (#[trigger] cfg.trade_sizes@[t]).amount_wei@,
        ) is Ok
}

/// Whether a route is one that the configuration gives rise to: two different
/// pools with the same tokens, the start token among them, and the amount that
/// the trade asks for.
pub open spec fn is_candidate(
    cfg: BotConfig,
    trade: int,
    first: int,
    second: int,
    amount_in: nat,
) -> bool {
    &&& 0 <= trade < cfg.trade_sizes@.len()
    &&& 0 <= first < cfg.pools@.len()
    &&& 0 <= second < cfg.pools@.len()
    &&& first != second
    &&& cfg.pools@[first].spec_contains_token(cfg.trade_sizes@[trade].token)
    &&& spec_same_token_pair(cfg.pools@[first], cfg.pools@[second])
    &&& dec_str_result(cfg.trade_sizes@[trade].amount_wei@) == Ok::<nat, DecimalError>(amount_in)
}

/// The position of a step in the order of a scan.
pub open spec fn position(step: Step) -> (int, int, int) {
    match step {
        Step::MissingStartToken { trade, first, .. } => (trade, first, 0),
        Step::PairMismatch { trade, first, second, .. } => (trade, first, second),
        Step::Route { trade, first, second, .. } => (trade, first, second),
        Step::BadAmount { .. } => (0, 0, 0),
    }
}

/// Whether a step is one that the configuration gives rise to: each pool that does
/// not trade the start token once, each other pool once with every pool beside it.
pub open spec fn arises(cfg: BotConfig, step: Step) -> bool {
    let (trade, first, second) = position(step);
    let pools = cfg.pools@;
    &&& 0 <= trade < cfg.trade_sizes@.len()
    &&& 0 <= first < pools.len()
    &&& dec_str_result(cfg.trade_sizes@[trade].amount_wei@) matches Ok(amount_in)
    &&& if pools[first].spec_contains_token(cfg.trade_sizes@[trade].token) {
        &&& 0 <= second < pools.len()
        &&& second != first
        &&& step == pair_step(pools, trade, first, second, amount_in)
    } else {
        step == (Step::MissingStartToken { trade, first, amount_in })
    }
}

/// The steps for one first pool are one step for every other pool.
proof fn lemma_second_steps_hold(
    pools: Seq<PoolConfig>,
    trade: int,
    first: int,
    amount_in: nat,
    from: int,
    step: Step,
)
    requires
        0 <= from,
    ensures
        second_steps(pools, trade, first, amount_in, from).contains(step) <==> from <= position(
            step,
        ).2 < pools.len() && position(step).2 != first && step == pair_step(
            pools,
            trade,
            first,
            position(step).2,
            amount_in,
        ),
    decreases pools.len() - from,
{
    broadcast use vstd::seq_lib::group_seq_properties;

    if from < pools.len() {
        lemma_second_steps_hold(pools, trade, first, amount_in, from + 1, step);
        let here = pair_step(pools, trade, first, from, amount_in);
        assert(seq![here].contains(step) <==> here == step) by {
            if here == step {
                assert(seq![here][0] == step);
            }
        }
    }
}

/// The steps for one trade are those of every first pool.
proof fn lemma_first_steps_hold(
    pools: Seq<PoolConfig>,
    token: Address,
    trade: int,
    amount_in: nat,
    from: int,
    step: Step,
)
    requires
        0 <= from,
    ensures
        first_steps(pools, token, trade, amount_in, from).contains(step) <==> {
            let (_, first, second) = position(step);
            &&& from <= first < pools.len()
            &&& if pools[first].spec_contains_token(token) {
                &&& 0 <= second < pools.len()
                &&& second != first
                &&& step == pair_step(pools, trade, first, second, amount_in)
            } else {
                step == (Step::MissingStartToken { trade, first, amount_in })
            }
        },
    decreases pools.len() - from,
{
    broadcast use vstd::seq_lib::group_seq_properties;

    if from < pools.len() {
        lemma_first_steps_hold(pools, token, trade, amount_in, from + 1, step);
        lemma_second_steps_hold(pools, trade, from, amount_in, 0, step);
        let here = Step::MissingStartToken { trade, first: from, amount_in };
        assert(seq![here].contains(step) <==> here == step) by {
            if here == step {
                assert(seq![here][0] == step);
            }
        }
    }
}

/// The steps for every trade are those of the trades up to the first one whose
/// amount cannot be read.
proof fn lemma_trade_steps_hold(cfg: BotConfig, from: int, step: Step)
    requires
        0 <= from,
        !(step is BadAmount),
    ensures
        trade_steps(cfg, from).contains(step) <==> from <= position(step).0 && amounts_readable(
            cfg,
            from,
            position(step).0,
        ) && arises(cfg, step),
    decreases cfg.trade_sizes@.len() - from,
{
    broadcast use vstd::seq_lib::group_seq_properties;

    let t = position(step).0;
    if from < cfg.trade_sizes@.len() {
        let trade = cfg.trade_sizes@[from];
        match dec_str_result(trade.amount_wei@) {
            Err(_) => {
                assert(from <= t ==> !amounts_readable(cfg, from, t));
            },
            Ok(amount_in) => {
                lemma_trade_steps_hold(cfg, from + 1, step);
                lemma_first_steps_hold(cfg.pools@, trade.token, from, amount_in, 0, step);
                assert(from <= t ==> (amounts_readable(cfg, from, t) <==> amounts_readable(
                    cfg,
                    from + 1,
                    t,
                )));
            },
        }
    }
}

/// A scan goes through exactly what the configuration gives rise to, up to the
/// first trade whose amount cannot be read.
pub proof fn law_agenda_covers_configuration(cfg: BotConfig, step: Step)
    requires
        !(step is BadAmount),
    ensures
        agenda(cfg).contains(step) <==> arises(cfg, step) && amounts_readable(
            cfg,
            0,
            position(step).0,
        ),
{
    lemma_trade_steps_hold(cfg, 0, step);
}

/// A scan quotes exactly the candidate routes: every ordered pair of different
/// pools with the same tokens, for every trade whose start token they trade, up
/// to the first trade whose amount cannot be read.
pub proof fn law_agenda_quotes_candidates(
    cfg: BotConfig,
    trade: int,
    first: int,
    second: int,
    amount_in: nat,
)
    ensures
        agenda(cfg).contains(Step::Route { trade, first, second, amount_in }) <==> is_candidate(
            cfg,
            trade,
            first,
            second,
            amount_in,
        ) && amounts_readable(cfg, 0, trade),
{
    law_agenda_covers_configuration(cfg, Step::Route { trade, first, second, amount_in });
}

/// The steps for every trade end with an error exactly where an amount cannot be
/// read: the error of the first such amount, and nothing behind it.
proof fn lemma_error_comes_last(cfg: BotConfig, from: int)
    requires
        0 <= from,
    ensures
        match bad_amount(cfg.trade_sizes@, from) {
            None => forall|k: int|
                0 <= k < trade_steps(cfg, from).len() ==> !(#[trigger] trade_steps(cfg, from)[k]
                    is BadAmount),
            Some(fault) => {
                &&& trade_steps(cfg, from).len() > 0
                &&& trade_steps(cfg, from).last() == (Step::BadAmount { fault })
                &&& forall|k: int|
                    0 <= k < trade_steps(cfg, from).len() - 1 ==> !(#[trigger] trade_steps(
                        cfg,
                        from,
                    )[k] is BadAmount)
            },
        },
    decreases cfg.trade_sizes@.len() - from,
{
    if from < cfg.trade_sizes@.len() {
        let trade = cfg.trade_sizes@[from];
        if let Ok(amount_in) = dec_str_result(trade.amount_wei@) {
            lemma_error_comes_last(cfg, from + 1);
            let here = first_steps(cfg.pools@, trade.token, from, amount_in, 0);
            let rest = trade_steps(cfg, from + 1);
            let all = trade_steps(cfg, from);
            assert(all == here + rest);
            assert forall|k: int|
                0 <= k < all.len() && (k < all.len() - 1 || bad_amount(cfg.trade_sizes@, from)
                    is None) implies !(#[trigger] all[k] is BadAmount) by {
                if k < here.len() {
                    lemma_first_steps_kinds(cfg.pools@, trade.token, from, amount_in, 0, k);
                    assert(all[k] == here[k]);
                } else {
                    assert(all[k] == rest[k - here.len()]);
                }
            }
        }
    }
}

/// A scan meets an error exactly where some amount cannot be read. It is the error
/// of the first such amount, and the scan goes through nothing behind it.
pub proof fn law_error_exactly_on_unreadable_amount(cfg: BotConfig)
    ensures
        (exists|k: int| 0 <= k < agenda(cfg).len() && #[trigger] agenda(cfg)[k] is BadAmount)
            <==> exists|t: int|
            0 <= t < cfg.trade_sizes@.len() && dec_str_result(
                (#[trigger] cfg.trade_sizes@[t]).amount_wei@,
            ) is Err,
        forall|k: int|
            0 <= k < agenda(cfg).len() && #[trigger] agenda(cfg)[k] is BadAmount ==> k
                == agenda(cfg).len() - 1 && bad_amount(cfg.trade_sizes@, 0) == Some(
                agenda(cfg)[k]->fault,
            ),
{
    lemma_bad_amount(cfg.trade_sizes@, 0);
    lemma_error_comes_last(cfg, 0);
    if bad_amount(cfg.trade_sizes@, 0) is Some {
        assert(agenda(cfg)[agenda(cfg).len() - 1] is BadAmount);
    }
}

/// A scan with a configuration that was accepted meets no error.
pub proof fn law_valid_configuration_never_aborts(cfg: BotConfig, k: int)
    requires
        cfg.fault() is None,
        0 <= k < agenda(cfg).len(),
    ensures
        !(agenda(cfg)[k] is BadAmount),
{
    law_valid_configurations(cfg);
    law_error_exactly_on_unreadable_amount(cfg);
}

/// Whether one position comes before another.
pub open spec fn earlier(p: (int, int, int), q: (int, int, int)) -> bool {
    p.0 < q.0 || (p.0 == q.0 && (p.1 < q.1 || (p.1 == q.1 && p.2 < q.2)))
}

proof fn lemma_second_steps_kinds(
    pools: Seq<PoolConfig>,
    trade: int,
    first: int,
    amount_in: nat,
    from: int,
    k: int,
)
    requires
        0 <= from,
        0 <= k < second_steps(pools, trade, first, amount_in, from).len(),
    ensures
        ({
            let step = second_steps(pools, trade, first, amount_in, from)[k];
            &&& step is Route || step is PairMismatch
            &&& position(step).0 == trade
            &&& position(step).1 == first
            &&& from <= position(step).2 < pools.len()
        }),
    decreases pools.len() - from,
{
    let all = second_steps(pools, trade, first, amount_in, from);
    let rest = second_steps(pools, trade, first, amount_in, from + 1);
    if from == first {
        lemma_second_steps_kinds(pools, trade, first, amount_in, from + 1, k);
    } else if k > 0 {
        lemma_second_steps_kinds(pools, trade, first, amount_in, from + 1, k - 1);
        assert(all[k] == rest[k - 1]);
    }
}

proof fn lemma_first_steps_kinds(
    pools: Seq<PoolConfig>,
    token: Address,
    trade: int,
    amount_in: nat,
    from: int,
    k: int,
)
    requires
        0 <= from,
        0 <= k < first_steps(pools, token, trade, amount_in, from).len(),
    ensures
        ({
            let step = first_steps(pools, token, trade, amount_in, from)[k];
            &&& !(step is BadAmount)
            &&& position(step).0 == trade
            &&& from <= position(step).1 < pools.len()
            &&& 0 <= position(step).2 < pools.len()
        }),
    decreases pools.len() - from,
{
    let all = first_steps(pools, token, trade, amount_in, from);
    let rest = first_steps(pools, token, trade, amount_in, from + 1);
    let here = if pools[from].spec_contains_token(token) {
        second_steps(pools, trade, from, amount_in, 0)
    } else {
        seq![Step::MissingStartToken { trade, first: from, amount_in }]
    };
    assert(all == here + rest);
    if k < here.len() {
        if pools[from].spec_contains_token(token) {
            lemma_second_steps_kinds(pools, trade, from, amount_in, 0, k);
        }
        assert(all[k] == here[k]);
    } else {
        lemma_first_steps_kinds(pools, token, trade, amount_in, from + 1, k - here.len());
        assert(all[k] == rest[k - here.len()]);
    }
}

proof fn lemma_second_steps_in_order(
    pools: Seq<PoolConfig>,
    trade: int,
    first: int,
    amount_in: nat,
    from: int,
    k: int,
    l: int,
)
    requires
        0 <= from,
        0 <= k < l < second_steps(pools, trade, first, amount_in, from).len(),
    ensures
        ({
            let all = second_steps(pools, trade, first, amount_in, from);
            earlier(position(all[k]), position(all[l]))
        }),
    decreases pools.len() - from,
{
    let all = second_steps(pools, trade, first, amount_in, from);
    let rest = second_steps(pools, trade, first, amount_in, from + 1);
    if from == first {
        lemma_second_steps_in_order(pools, trade, first, amount_in, from + 1, k, l);
    } else {
        assert(all[l] == rest[l - 1]);
        if k > 0 {
            assert(all[k] == rest[k - 1]);
            lemma_second_steps_in_order(pools, trade, first, amount_in, from + 1, k - 1, l - 1);
        } else {
            lemma_second_steps_kinds(pools, trade, first, amount_in, from + 1, l - 1);
        }
    }
}

proof fn lemma_first_steps_in_order(
    pools: Seq<PoolConfig>,
    token: Address,
    trade: int,
    amount_in: nat,
    from: int,
    k: int,
    l: int,
)
    requires
        0 <= from,
        0 <= k < l < first_steps(pools, token, trade, amount_in, from).len(),
    ensures
        ({
            let all = first_steps(pools, token, trade, amount_in, from);
            earlier(position(all[k]), position(all[l]))
        }),
    decreases pools.len() - from,
{
    let all = first_steps(pools, token, trade, amount_in, from);
    let rest = first_steps(pools, token, trade, amount_in, from + 1);
    let here = if pools[from].spec_contains_token(token) {
        second_steps(pools, trade, from, amount_in, 0)
    } else {
        seq![Step::MissingStartToken { trade, first: from, amount_in }]
    };
    assert(all == here + rest);
    if l < here.len() {
        lemma_second_steps_in_order(pools, trade, from, amount_in, 0, k, l);
        assert(all[k] == here[k] && all[l] == here[l]);
    } else {
        lemma_first_steps_kinds(pools, token, trade, amount_in, from + 1, l - here.len());
        assert(all[l] == rest[l - here.len()]);
        if k < here.len() {
            assert(all[k] == here[k]);
            if pools[from].spec_contains_token(token) {
                lemma_second_steps_kinds(pools, trade, from, amount_in, 0, k);
            }
        } else {
            assert(all[k] == rest[k - here.len()]);
            lemma_first_steps_in_order(
                pools,
                token,
                trade,
                amount_in,
                from + 1,
                k - here.len(),
                l - here.len(),
            );
        }
    }
}

proof fn lemma_trade_steps_positions(cfg: BotConfig, from: int, k: int)
    requires
        0 <= from,
        0 <= k < trade_steps(cfg, from).len(),
        !(trade_steps(cfg, from)[k] is BadAmount),
    ensures
        ({
            let step = trade_steps(cfg, from)[k];
            &&& from <= position(step).0 < cfg.trade_sizes@.len()
            &&& 0 <= position(step).1 < cfg.pools@.len()
            &&& 0 <= position(step).2 < cfg.pools@.len()
        }),
    decreases cfg.trade_sizes@.len() - from,
{
    let trade = cfg.trade_sizes@[from];
    match dec_str_result(trade.amount_wei@) {
        Err(_) => {},
        Ok(amount_in) => {
            let here = first_steps(cfg.pools@, trade.token, from, amount_in, 0);
            if k < here.len() {
                lemma_first_steps_kinds(cfg.pools@, trade.token, from, amount_in, 0, k);
                assert(trade_steps(cfg, from)[k] == here[k]);
            } else {
                assert(trade_steps(cfg, from)[k] == trade_steps(cfg, from + 1)[k - here.len()]);
                lemma_trade_steps_positions(cfg, from + 1, k - here.len());
            }
        },
    }
}

proof fn lemma_trade_steps_in_order(cfg: BotConfig, from: int, k: int, l: int)
    requires
        0 <= from,
        0 <= k < l < trade_steps(cfg, from).len(),
        !(trade_steps(cfg, from)[k] is BadAmount),
        !(trade_steps(cfg, from)[l] is BadAmount),
    ensures
        earlier(position(trade_steps(cfg, from)[k]), position(trade_steps(cfg, from)[l])),
    decreases cfg.trade_sizes@.len() - from,
{
    let trade = cfg.trade_sizes@[from];
    let all = trade_steps(cfg, from);
    let rest = trade_steps(cfg, from + 1);
    match dec_str_result(trade.amount_wei@) {
        Err(_) => {},
        Ok(amount_in) => {
            let here = first_steps(cfg.pools@, trade.token, from, amount_in, 0);
            if l < here.len() {
                lemma_first_steps_in_order(cfg.pools@, trade.token, from, amount_in, 0, k, l);
                assert(all[k] == here[k] && all[l] == here[l]);
            } else {
                assert(all[l] == rest[l - here.len()]);
                lemma_trade_steps_positions(cfg, from + 1, l - here.len());
                if k < here.len() {
                    assert(all[k] == here[k]);
                    lemma_first_steps_kinds(cfg.pools@, trade.token, from, amount_in, 0, k);
                } else {
                    assert(all[k] == rest[k - here.len()]);
                    lemma_trade_steps_in_order(cfg, from + 1, k - here.len(), l - here.len());
                }
            }
        },
    }
}

/// A scan goes through trades, first pools and second pools in the order in which
/// they are configured, and through nothing twice.
pub proof fn law_agenda_follows_configuration(cfg: BotConfig, k: int, l: int)
    requires
        0 <= k < l < agenda(cfg).len(),
        !(agenda(cfg)[k] is BadAmount),
        !(agenda(cfg)[l] is BadAmount),
    ensures
        earlier(position(agenda(cfg)[k]), position(agenda(cfg)[l])),
{
    lemma_trade_steps_in_order(cfg, 0, k, l);
}

/// A scan goes through these steps and no others, for every trade up to the first
/// one whose amount cannot be read. A first pool that lacks the start token is passed
/// over once. A first pool that trades it is paired with every other pool: the pair is
/// quoted exactly where both pools trade the same two tokens, and passed over
/// otherwise. The amount is always what the trade asks for.
pub proof fn law_agenda_step_by_step(
    cfg: BotConfig,
    trade: int,
    first: int,
    second: int,
    amount_in: nat,
)
    ensures
        ({
            let trades = cfg.trade_sizes@;
            let a = cfg.pools@[first];
            let b = cfg.pools@[second];
            let token = trades[trade].token;
            let due = 0 <= trade < trades.len() && 0 <= first < cfg.pools@.len() && (forall|t: int|
                0 <= t < trade ==> dec_str_result((#[trigger] trades[t]).amount_wei@) is Ok)
                && dec_str_result(trades[trade].amount_wei@) == Ok::<nat, DecimalError>(amount_in);
            let starts = token == a.spec_token0() || token == a.spec_token1();
            let alike = (a.spec_token0() == b.spec_token0() && a.spec_token1() == b.spec_token1())
                || (a.spec_token0() == b.spec_token1() && a.spec_token1() == b.spec_token0());
            let paired = due && starts && 0 <= second < cfg.pools@.len() && second != first;
            &&& agenda(cfg).contains(Step::Route { trade, first, second, amount_in }) <==> paired
                && alike
            &&& agenda(cfg).contains(Step::PairMismatch { trade, first, second, amount_in })
                <==> paired && !alike
            &&& agenda(cfg).contains(Step::MissingStartToken { trade, first, amount_in }) <==> due
                && !starts
        }),
{
    let trades = cfg.trade_sizes@;
    law_agenda_covers_configuration(cfg, Step::Route { trade, first, second, amount_in });
    law_agenda_covers_configuration(cfg, Step::PairMismatch { trade, first, second, amount_in });
    law_agenda_covers_configuration(cfg, Step::MissingStartToken { trade, first, amount_in });
    assert(amounts_readable(cfg, 0, trade) && 0 <= trade < trades.len() <==> 0 <= trade
        < trades.len() && dec_str_result(trades[trade].amount_wei@) is Ok && forall|t: int|
        0 <= t < trade ==> dec_str_result((#[trigger] trades[t]).amount_wei@) is Ok);
}

/// A scan goes through trades in the order in which they are configured, for each
/// trade through first pools, and for each first pool through second pools.
pub proof fn law_agenda_is_in_order(cfg: BotConfig, k: int, l: int)
    requires
        0 <= k < l < agenda(cfg).len(),
    ensures
        (agenda(cfg)[k], agenda(cfg)[l]) matches (
            Step::Route { trade: t, first: i, second: j, .. },
            Step::Route { trade: u, first: m, second: n, .. },
        ) ==> t < u || (t == u && (i < m || (i == m && j < n))),
        (agenda(cfg)[k], agenda(cfg)[l]) matches (
            Step::Route { trade: t, first: i, second: j, .. },
            Step::PairMismatch { trade: u, first: m, second: n, .. },
        ) ==> t < u || (t == u && (i < m || (i == m && j < n))),
        (agenda(cfg)[k], agenda(cfg)[l]) matches (
            Step::PairMismatch { trade: t, first: i, second: j, .. },
            Step::Route { trade: u, first: m, second: n, .. },
        ) ==> t < u || (t == u && (i < m || (i == m && j < n))),
        (agenda(cfg)[k], agenda(cfg)[l]) matches (
            Step::PairMismatch { trade: t, first: i, second: j, .. },
            Step::PairMismatch { trade: u, first: m, second: n, .. },
        ) ==> t < u || (t == u && (i < m || (i == m && j < n))),
        (agenda(cfg)[k], agenda(cfg)[l]) matches (
            Step::MissingStartToken { trade: t, first: i, .. },
            Step::MissingStartToken { trade: u, first: m, .. },
        ) ==> t < u || (t == u && i < m),
        (agenda(cfg)[k], agenda(cfg)[l]) matches (
            Step::MissingStartToken { trade: t, first: i, .. },
            Step::Route { trade: u, first: m, .. },
        ) ==> t < u || (t == u && i <= m),
        (agenda(cfg)[k], agenda(cfg)[l]) matches (
            Step::Route { trade: t, first: i, .. },
            Step::MissingStartToken { trade: u, first: m, .. },
        ) ==> t < u || (t == u && i <= m),
        agenda(cfg)[k] != agenda(cfg)[l],
        !(agenda(cfg)[k] is BadAmount),
{
    law_error_exactly_on_unreadable_amount(cfg);
    if !(agenda(cfg)[l] is BadAmount) {
        law_agenda_follows_configuration(cfg, k, l);
    }
}

/// A step stands for its fields, and a list of steps for the list of what they stand
/// for.
pub proof fn law_steps_stand_for_their_fields(step: ScanStep, steps: Seq<ScanStep>)
    ensures
        step matches ScanStep::MissingStartToken { trade, first, amount_in } ==> step@ == (
        Step::MissingStartToken { trade: trade as int, first: first as int, amount_in: amount_in@ }),
        step matches ScanStep::PairMismatch { trade, first, second, amount_in } ==> step@ == (
        Step::PairMismatch {
            trade: trade as int,
            first: first as int,
            second: second as int,
            amount_in: amount_in@,
        }),
        step matches ScanStep::Route { trade, first, second, amount_in } ==> step@ == (
        Step::Route {
            trade: trade as int,
            first: first as int,
            second: second as int,
            amount_in: amount_in@,
        }),
        step matches ScanStep::BadAmount { error } ==> step@ == (Step::BadAmount {
            fault: error@,
        }),
        step_models(steps).len() == steps.len(),
        forall|k: int| 0 <= k < steps.len() ==> #[trigger] step_models(steps)[k] == steps[k]@,
{
}

/// The name under which a step that is passed over is logged says why, whatever its
/// pools and amounts. Any other step has none.
pub proof fn law_skipped_steps_are_named_by_kind(step: Step)
    ensures
        step is MissingStartToken ==> step.spec_skip_reason() == Some(
            "first_pool_missing_start_token"@,
        ),
        step is PairMismatch ==> step.spec_skip_reason() == Some("pool_pair_mismatch"@),
        step is Route || step is BadAmount ==> step.spec_skip_reason() is None,
{
}

} // verus!
