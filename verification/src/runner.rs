//! What the bot does around a scan: when it scans, and what it does with what
//! was found.

use crate::config::BotConfig;
use vstd::prelude::*;

verus! {

/// Something that happens while the bot watches.
#[derive(Clone, Copy, Debug, PartialEq, Eq, Structural)]
pub enum WatchEvent {
    /// The operator asks the bot to stop.
    Interrupted,
    /// The polling interval has passed.
    Tick,
    /// A new block was confirmed.
    Block,
    /// There will be no more blocks.
    SubscriptionEnded,
    /// A scan has ended.
    ScanDone,
    /// A scan has ended with an error.
    ScanFailed,
}

/// What the bot does about it.
#[derive(Clone, Copy, Debug, PartialEq, Eq, Structural)]
pub enum WatchAction {
    /// Scan once.
    Scan,
    /// Wait for what happens next.
    Wait,
    /// Report the error and wait for what happens next.
    ReportAndWait,
    /// End.
    Stop,
}

/// What the bot does about an event: it scans on every tick and every block, a
/// scan that fails does not end it, and it stops when it is told to or when no
/// block can come any more.
pub fn watch_step(event: WatchEvent) -> (r: WatchAction)
    ensures
        r == WatchAction::Scan <==> event is Tick || event is Block,
        r == WatchAction::Stop <==> event is Interrupted || event is SubscriptionEnded,
        r == WatchAction::Wait <==> event is ScanDone,
        r == WatchAction::ReportAndWait <==> event is ScanFailed,
{
    match event {
        WatchEvent::Interrupted => WatchAction::Stop,
        WatchEvent::Tick => WatchAction::Scan,
        WatchEvent::Block => WatchAction::Scan,
        WatchEvent::SubscriptionEnded => WatchAction::Stop,
        WatchEvent::ScanDone => WatchAction::Wait,
        WatchEvent::ScanFailed => WatchAction::ReportAndWait,
    }
}

/// One thing to do with the opportunities that a scan has found, which are given
/// by their positions.
#[derive(Clone, Copy, Debug, PartialEq, Eq, Structural)]
pub enum ReportStep {
    /// Say that there are none.
    NothingFound,
    /// Log the opportunity.
    Announce { index: usize },
    /// Send an alert.
    Notify { index: usize },
    /// Print it for other programs.
    Print { index: usize },
    /// Execute it.
    Execute { index: usize },
}

/// Whether alerts are sent.
pub open spec fn alerts_on(cfg: BotConfig) -> bool {
    cfg.telegram matches Some(telegram) && telegram.enabled
}

/// What is done with one opportunity: it is logged, alerted where alerts are on,
/// printed, and executed in live mode only.
pub open spec fn handling(cfg: BotConfig, index: usize) -> Seq<ReportStep> {
    seq![ReportStep::Announce { index }] + (if alerts_on(cfg) {
        seq![ReportStep::Notify { index }]
    } else {
        Seq::empty()
    }) + seq![ReportStep::Print { index }] + (if cfg.run_mode is Live {
        seq![ReportStep::Execute { index }]
    } else {
        Seq::empty()
    })
}

/// What is done with the first `count` opportunities, one after the other.
pub open spec fn handling_of_all(cfg: BotConfig, count: nat) -> Seq<ReportStep>
    decreases count,
{
    if count == 0 {
        Seq::empty()
    } else {
        handling_of_all(cfg, (count - 1) as nat) + handling(cfg, (count - 1) as usize)
    }
}

/// Everything to do after a scan that has found `count` opportunities, in order.
pub open spec fn report(cfg: BotConfig, count: nat) -> Seq<ReportStep> {
    if count == 0 {
        seq![ReportStep::NothingFound]
    } else {
        handling_of_all(cfg, count)
    }
}

/// Everything to do after a scan that has found `count` opportunities, in order.
pub fn report_steps(cfg: &BotConfig, count: usize) -> (r: Vec<ReportStep>)
    ensures
        r@ == report(*cfg, count as nat),
        count == 0 ==> r@ == seq![ReportStep::NothingFound],
        forall|index: usize|
            index < count ==> #[trigger] r@.contains(ReportStep::Announce { index }) && r@.contains(
                ReportStep::Print { index },
            ),
{
    let ghost total = count as nat;
    proof {
        assert forall|index: usize| index < count implies #[trigger] report(*cfg, total).contains(
            ReportStep::Announce { index },
        ) && report(*cfg, total).contains(ReportStep::Print { index }) by {
            law_report_handles_every_opportunity(*cfg, total, index);
        }
    }
    let mut steps: Vec<ReportStep> = Vec::new();
    if count == 0 {
        steps.push(ReportStep::NothingFound);
        assert(steps@ =~= seq![ReportStep::NothingFound]);
        return steps;
    }
    let alerts = match &cfg.telegram {
        Some(telegram) => telegram.enabled,
        None => false,
    };
    let mut index: usize = 0;
    while index < count
        invariant
            index <= count,
            alerts == alerts_on(*cfg),
            steps@ == handling_of_all(*cfg, index as nat),
        decreases count - index,
    {
        let ghost before = steps@;
        steps.push(ReportStep::Announce { index });
        if alerts {
            steps.push(ReportStep::Notify { index });
        }
        steps.push(ReportStep::Print { index });
        if cfg.run_mode.is_live() {
            steps.push(ReportStep::Execute { index });
        }
        assert(steps@ =~= before + handling(*cfg, index));
        index += 1;
    }
    steps
}

/// The step that comes after the first `done` of `steps`: none after a failure, and
/// none after the last one.
pub fn next_report_step(steps: &Vec<ReportStep>, done: usize, failed: bool) -> (r: Option<
    ReportStep,
>)
    ensures
        failed || done >= steps.len() ==> r is None,
        !failed && done < steps.len() ==> r == Some(steps@[done as int]),
{
    if failed || done >= steps.len() {
        None
    } else {
        Some(steps[done])
    }
}

/// How far a report has come: the results of the steps that were carried out, of
/// which only the last one can be an error.
pub struct ReportRun<E> {
    steps: Vec<ReportStep>,
    done: usize,
    error: Option<E>,
    results: Ghost<Seq<Result<(), E>>>,
}

/// Whether `results` ends with an error.
pub open spec fn failed<E>(results: Seq<Result<(), E>>) -> bool {
    results.len() > 0 && results.last() is Err
}

impl<E> ReportRun<E> {
    /// Everything to do, in order.
    pub closed spec fn spec_steps(self) -> Seq<ReportStep> {
        self.steps@
    }

    /// The results of the steps that were carried out, in order.
    pub closed spec fn spec_results(self) -> Seq<Result<(), E>> {
        self.results@
    }

    /// Whether this is a state of a report: the steps were carried out from the
    /// first one on, none behind one that failed.
    pub closed spec fn wf(self) -> bool {
        &&& self.done == self.results@.len()
        &&& self.done <= self.steps@.len()
        &&& forall|k: int| 0 <= k < self.results@.len() - 1 ==> #[trigger] self.results@[k] is Ok
        &&& match self.error {
            Some(error) => failed(self.results@) && self.results@.last() == Err::<(), E>(error),
            None => !failed(self.results@),
        }
    }

    /// Whether nothing is left to do: a step has failed, or all are done.
    pub open spec fn over(self) -> bool {
        failed(self.spec_results()) || self.spec_results().len() >= self.spec_steps().len()
    }

    /// Begins the report of a scan that has found `count` opportunities.
    pub fn new(cfg: &BotConfig, count: usize) -> (r: Self)
        ensures
            r.wf(),
            r.spec_steps() == report(*cfg, count as nat),
            r.spec_results() == Seq::<Result<(), E>>::empty(),
    {
        ReportRun {
            steps: report_steps(cfg, count),
            done: 0,
            error: None,
            results: Ghost(Seq::empty()),
        }
    }

    /// The step to carry out next, unless the report is over.
    pub fn next(&self) -> (r: Option<ReportStep>)
        requires
            self.wf(),
        ensures
            r == if self.over() {
                None
            } else {
                Some(self.spec_steps()[self.spec_results().len() as int])
            },
    {
        next_report_step(&self.steps, self.done, self.error.is_some())
    }

    /// Takes the result of the step that was to be carried out.
    pub fn record(&mut self, result: Result<(), E>)
        requires
            old(self).wf(),
            !old(self).over(),
        ensures
            final(self).wf(),
            final(self).spec_steps() == old(self).spec_steps(),
            final(self).spec_results() == old(self).spec_results().push(result),
    {
        self.results = Ghost(self.results@.push(result));
        assert(self.done < self.steps.len());
        self.done = self.done + 1;
        if let Err(error) = result {
            self.error = Some(error);
        }
    }

    /// Ends a report that is over: with the error of the step that failed, if one did.
    pub fn finish(self) -> (r: Result<(), E>)
        requires
            self.wf(),
            self.over(),
        ensures
            r == if failed(self.spec_results()) {
                self.spec_results().last()
            } else {
                Ok(())
            },
    {
        match self.error {
            Some(error) => Err(error),
            None => Ok(()),
        }
    }
}

/// A step that fails ends the report: nothing behind it is carried out. Without a
/// failure everything is.
pub proof fn law_failure_ends_report<E>(run: ReportRun<E>)
    requires
        run.wf(),
    ensures
        run.spec_results().len() <= run.spec_steps().len(),
        forall|k: int|
            0 <= k < run.spec_results().len() && #[trigger] run.spec_results()[k] is Err
                ==> run.spec_results().len() == k + 1 && run.over(),
        run.over() && !failed(run.spec_results()) ==> run.spec_results().len()
            == run.spec_steps().len(),
{
}

/// Nothing is executed unless the bot runs live.
pub proof fn law_dry_run_never_executes(cfg: BotConfig, count: nat, k: int)
    requires
        !(cfg.run_mode is Live),
        0 <= k < handling_of_all(cfg, count).len(),
    ensures
        !(handling_of_all(cfg, count)[k] is Execute),
    decreases count,
{
    let before = handling_of_all(cfg, (count - 1) as nat);
    if k < before.len() {
        law_dry_run_never_executes(cfg, (count - 1) as nat, k);
    } else {
        assert(handling_of_all(cfg, count)[k] == handling(cfg, (count - 1) as usize)[k
            - before.len()]);
    }
}

/// No alert is sent unless alerts are configured and switched on.
pub proof fn law_alerts_are_opt_in(cfg: BotConfig, count: nat, k: int)
    requires
        !alerts_on(cfg),
        0 <= k < handling_of_all(cfg, count).len(),
    ensures
        !(handling_of_all(cfg, count)[k] is Notify),
    decreases count,
{
    let before = handling_of_all(cfg, (count - 1) as nat);
    if k < before.len() {
        law_alerts_are_opt_in(cfg, (count - 1) as nat, k);
    } else {
        assert(handling_of_all(cfg, count)[k] == handling(cfg, (count - 1) as usize)[k
            - before.len()]);
    }
}

/// Whether `steps` holds `step` exactly once.
pub open spec fn once(steps: Seq<ReportStep>, step: ReportStep) -> bool {
    exists|k: int|
        0 <= k < steps.len() && steps[k] == step && forall|l: int|
            0 <= l < steps.len() && l != k ==> #[trigger] steps[l] != step
}

/// A step concerns an opportunity before `count`.
proof fn lemma_steps_before(cfg: BotConfig, count: nat, k: int)
    requires
        0 <= k < handling_of_all(cfg, count).len(),
        count <= usize::MAX,
    ensures
        match handling_of_all(cfg, count)[k] {
            ReportStep::NothingFound => false,
            ReportStep::Announce { index } => index < count,
            ReportStep::Notify { index } => index < count,
            ReportStep::Print { index } => index < count,
            ReportStep::Execute { index } => index < count,
        },
    decreases count,
{
    let before = handling_of_all(cfg, (count - 1) as nat);
    if k < before.len() {
        lemma_steps_before(cfg, (count - 1) as nat, k);
    } else {
        assert(handling_of_all(cfg, count)[k] == handling(cfg, (count - 1) as usize)[k
            - before.len()]);
    }
}

/// Whether `step` is one of the things to do with the opportunity at `index`.
pub open spec fn is_due(cfg: BotConfig, index: usize, step: ReportStep) -> bool {
    ||| step == ReportStep::Announce { index }
    ||| step == ReportStep::Print { index }
    ||| step == ReportStep::Notify { index } && alerts_on(cfg)
    ||| step == ReportStep::Execute { index } && cfg.run_mode is Live
}

/// Everything that is due for an opportunity is done, and done once: it is logged
/// and printed, an alert is sent where alerts are on, and it is executed in live
/// mode.
pub proof fn law_each_opportunity_is_handled_once(
    cfg: BotConfig,
    count: nat,
    index: usize,
    step: ReportStep,
)
    requires
        index < count <= usize::MAX,
        is_due(cfg, index, step),
    ensures
        once(handling_of_all(cfg, count), step),
    decreases count,
{
    let all = handling_of_all(cfg, count);
    let before = handling_of_all(cfg, (count - 1) as nat);
    let last = handling(cfg, (count - 1) as usize);
    assert(all == before + last);
    if index == count - 1 {
        let alert: int = if alerts_on(cfg) {
            1
        } else {
            0
        };
        let here: int = match step {
            ReportStep::Announce { .. } => 0,
            ReportStep::Notify { .. } => 1,
            ReportStep::Print { .. } => 1 + alert,
            _ => 2 + alert,
        };
        let k = before.len() + here;
        assert(last[here] == step);
        assert(all[k] == step);
        assert forall|l: int| 0 <= l < all.len() && l != k implies #[trigger] all[l] != step by {
            if l < before.len() {
                lemma_steps_before(cfg, (count - 1) as nat, l);
                assert(all[l] == before[l]);
            } else {
                assert(all[l] == last[l - before.len()]);
            }
        }
    } else {
        law_each_opportunity_is_handled_once(cfg, (count - 1) as nat, index, step);
        let k = choose|k: int|
            0 <= k < before.len() && before[k] == step && forall|l: int|
                0 <= l < before.len() && l != k ==> #[trigger] before[l] != step;
        assert(all[k] == step);
        assert forall|l: int| 0 <= l < all.len() && l != k implies #[trigger] all[l] != step by {
            if l < before.len() {
                assert(all[l] == before[l]);
            } else {
                assert(all[l] == last[l - before.len()]);
            }
        }
    }
}

/// The things to do with an opportunity, by where they stand among all.
proof fn lemma_place_of_step(cfg: BotConfig, count: nat, index: usize, k: int)
    requires
        index < count <= usize::MAX,
        0 <= k < handling(cfg, index).len(),
    ensures
        handling_of_all(cfg, index as nat).len() + k < handling_of_all(cfg, count).len(),
        handling_of_all(cfg, count)[handling_of_all(cfg, index as nat).len() + k] == handling(
            cfg,
            index,
        )[k],
        handling_of_all(cfg, count).take(handling_of_all(cfg, index as nat).len() as int)
            == handling_of_all(cfg, index as nat),
    decreases count,
{
    let all = handling_of_all(cfg, count);
    let before = handling_of_all(cfg, (count - 1) as nat);
    let here = handling_of_all(cfg, index as nat);
    assert(all == before + handling(cfg, (count - 1) as usize));
    if index == count - 1 {
        assert(all.take(here.len() as int) =~= here);
    } else {
        lemma_place_of_step(cfg, (count - 1) as nat, index, k);
        assert(all.take(here.len() as int) =~= before.take(here.len() as int));
    }
}

/// Where the execution of an opportunity fails, the opportunities up to it were
/// printed and executed, and nothing of those behind it was logged, alerted,
/// printed or executed.
pub proof fn law_failed_execution_spares_the_rest<E>(
    cfg: BotConfig,
    count: nat,
    run: ReportRun<E>,
    index: usize,
)
    requires
        run.wf(),
        count <= usize::MAX,
        run.spec_steps() == report(cfg, count),
        failed(run.spec_results()),
        run.spec_steps()[run.spec_results().len() - 1] == (ReportStep::Execute { index }),
    ensures
        cfg.run_mode is Live,
        index < count,
        forall|i: usize|
            i <= index <==> #[trigger] run.spec_steps().take(
                run.spec_results().len() as int,
            ).contains(ReportStep::Print { index: i }),
        forall|i: usize|
            i <= index <==> #[trigger] run.spec_steps().take(
                run.spec_results().len() as int,
            ).contains(ReportStep::Execute { index: i }),
        forall|i: usize|
            i > index ==> !(#[trigger] run.spec_steps().take(
                run.spec_results().len() as int,
            ).contains(ReportStep::Announce { index: i })),
        forall|i: usize|
            i > index ==> !(#[trigger] run.spec_steps().take(
                run.spec_results().len() as int,
            ).contains(ReportStep::Notify { index: i })),
{
    let all = handling_of_all(cfg, count);
    let n = run.spec_results().len() as int;
    let done = run.spec_steps().take(n);
    assert(count > 0);
    if !(cfg.run_mode is Live) {
        law_dry_run_never_executes(cfg, count, n - 1);
    }
    lemma_steps_before(cfg, count, n - 1);
    let through = handling_of_all(cfg, (index + 1) as nat);
    let here = handling(cfg, index);
    let last = here.len() - 1;
    assert(here[last] == ReportStep::Execute { index });
    lemma_place_of_step(cfg, count, index, last);
    // What was carried out is everything for the opportunities up to this one.
    let place = handling_of_all(cfg, index as nat).len() + last;
    law_each_opportunity_is_handled_once(cfg, count, index, ReportStep::Execute { index });
    assert(all[place] == all[n - 1]);
    assert(n - 1 == place);
    assert(done =~= through) by {
        assert(through.len() == n);
        assert forall|l: int| 0 <= l < n implies done[l] == through[l] by {
            let earlier = handling_of_all(cfg, index as nat);
            if l < earlier.len() {
                assert(all.take(earlier.len() as int)[l] == earlier[l]);
            } else {
                lemma_place_of_step(cfg, count, index, l - earlier.len());
            }
        }
    }
    assert forall|k: int| 0 <= k < through.len() implies match #[trigger] through[k] {
        ReportStep::NothingFound => false,
        ReportStep::Announce { index: i } => i <= index,
        ReportStep::Notify { index: i } => i <= index,
        ReportStep::Print { index: i } => i <= index,
        ReportStep::Execute { index: i } => i <= index,
    } by {
        lemma_steps_before(cfg, (index + 1) as nat, k);
    }
    assert forall|i: usize| i <= index implies through.contains(ReportStep::Print { index: i })
        && through.contains(ReportStep::Execute { index: i }) by {
        law_each_opportunity_is_handled_once(
            cfg,
            (index + 1) as nat,
            i,
            ReportStep::Print { index: i },
        );
        law_each_opportunity_is_handled_once(
            cfg,
            (index + 1) as nat,
            i,
            ReportStep::Execute { index: i },
        );
    }
}

/// What stands once stands at one place.
proof fn lemma_once_is_one_place(steps: Seq<ReportStep>, step: ReportStep) -> (k: int)
    requires
        once(steps, step),
    ensures
        0 <= k < steps.len(),
        steps[k] == step,
        forall|l: int| 0 <= l < steps.len() && l != k ==> #[trigger] steps[l] != step,
{
    choose|k: int|
        0 <= k < steps.len() && steps[k] == step && forall|l: int|
            0 <= l < steps.len() && l != k ==> #[trigger] steps[l] != step
}

/// A step that is due stands at exactly one place of the report.
proof fn lemma_due_step_has_one_place(cfg: BotConfig, count: nat, index: usize, step: ReportStep)
    requires
        index < count <= usize::MAX,
        is_due(cfg, index, step),
    ensures
        exists|k: int|
            0 <= k < report(cfg, count).len() && report(cfg, count)[k] == step && forall|l: int|
                0 <= l < report(cfg, count).len() && l != k ==> #[trigger] report(cfg, count)[l]
                    != step,
{
    law_each_opportunity_is_handled_once(cfg, count, index, step);
    let k = lemma_once_is_one_place(handling_of_all(cfg, count), step);
    assert(report(cfg, count)[k] == step);
}

/// After a scan that found nothing this is said, and nothing else is done. After any
/// other scan each opportunity, whatever their number, is logged exactly once and
/// printed exactly once; it is alerted exactly once where Telegram is configured and
/// enabled, and never otherwise; it is executed exactly once in live mode, and never
/// otherwise.
pub proof fn law_report_handles_every_opportunity(cfg: BotConfig, count: nat, index: usize)
    requires
        count <= usize::MAX,
    ensures
        count == 0 ==> report(cfg, count) == seq![ReportStep::NothingFound],
        count > 0 ==> !report(cfg, count).contains(ReportStep::NothingFound),
        index < count ==> {
            let steps = report(cfg, count);
            let alerts = cfg.telegram is Some && cfg.telegram->0.enabled;
            &&& exists|k: int|
                0 <= k < steps.len() && steps[k] == (ReportStep::Announce { index }) && forall|
                    l: int,
                |
                    0 <= l < steps.len() && l != k ==> #[trigger] steps[l] != (
                    ReportStep::Announce { index })
            &&& exists|k: int|
                0 <= k < steps.len() && steps[k] == (ReportStep::Print { index }) && forall|l: int|
                    0 <= l < steps.len() && l != k ==> #[trigger] steps[l] != (ReportStep::Print {
                        index,
                    })
            &&& alerts ==> exists|k: int|
                0 <= k < steps.len() && steps[k] == (ReportStep::Notify { index }) && forall|l: int|
                    0 <= l < steps.len() && l != k ==> #[trigger] steps[l] != (ReportStep::Notify {
                        index,
                    })
            &&& !alerts ==> !steps.contains(ReportStep::Notify { index })
            &&& cfg.run_mode is Live ==> exists|k: int|
                0 <= k < steps.len() && steps[k] == (ReportStep::Execute { index }) && forall|
                    l: int,
                |
                    0 <= l < steps.len() && l != k ==> #[trigger] steps[l] != (
                    ReportStep::Execute { index })
            &&& !(cfg.run_mode is Live) ==> !steps.contains(ReportStep::Execute { index })
        },
        index >= count ==> {
            let steps = report(cfg, count);
            &&& !steps.contains(ReportStep::Announce { index })
            &&& !steps.contains(ReportStep::Print { index })
            &&& !steps.contains(ReportStep::Notify { index })
            &&& !steps.contains(ReportStep::Execute { index })
        },
{
    let steps = report(cfg, count);
    if count > 0 {
        assert forall|k: int| 0 <= k < steps.len() implies match #[trigger] steps[k] {
            ReportStep::NothingFound => false,
            ReportStep::Announce { index: i } => i < count,
            ReportStep::Print { index: i } => i < count,
            ReportStep::Notify { index: i } => i < count && alerts_on(cfg),
            ReportStep::Execute { index: i } => i < count && cfg.run_mode is Live,
        } by {
            lemma_steps_before(cfg, count, k);
            if !alerts_on(cfg) {
                law_alerts_are_opt_in(cfg, count, k);
            }
            if !(cfg.run_mode is Live) {
                law_dry_run_never_executes(cfg, count, k);
            }
        }
    }
    if index < count {
        lemma_due_step_has_one_place(cfg, count, index, ReportStep::Announce { index });
        lemma_due_step_has_one_place(cfg, count, index, ReportStep::Print { index });
        if alerts_on(cfg) {
            lemma_due_step_has_one_place(cfg, count, index, ReportStep::Notify { index });
        }
        if cfg.run_mode is Live {
            lemma_due_step_has_one_place(cfg, count, index, ReportStep::Execute { index });
        }
    }
}

/// The steps of all opportunities come in order.
proof fn lemma_handling_in_order(cfg: BotConfig, count: nat, k: int, l: int)
    requires
        count <= usize::MAX,
        0 <= k < l < handling_of_all(cfg, count).len(),
    ensures
        comes_before(handling_of_all(cfg, count)[k], handling_of_all(cfg, count)[l]),
    decreases count,
{
    let all = handling_of_all(cfg, count);
    let before = handling_of_all(cfg, (count - 1) as nat);
    let last = handling(cfg, (count - 1) as usize);
    assert(all == before + last);
    if l < before.len() {
        lemma_handling_in_order(cfg, (count - 1) as nat, k, l);
        assert(all[k] == before[k] && all[l] == before[l]);
    } else {
        assert(all[l] == last[l - before.len()]);
        if k < before.len() {
            lemma_steps_before(cfg, (count - 1) as nat, k);
            assert(all[k] == before[k]);
        } else {
            assert(all[k] == last[k - before.len()]);
        }
    }
}

/// Whether one step of a report comes before another.
spec fn comes_before(a: ReportStep, b: ReportStep) -> bool {
    let index = |step: ReportStep|
        match step {
            ReportStep::NothingFound => -1int,
            ReportStep::Announce { index } => index as int,
            ReportStep::Notify { index } => index as int,
            ReportStep::Print { index } => index as int,
            ReportStep::Execute { index } => index as int,
        };
    let phase = |step: ReportStep|
        match step {
            ReportStep::NothingFound => 0int,
            ReportStep::Announce { .. } => 1,
            ReportStep::Notify { .. } => 2,
            ReportStep::Print { .. } => 3,
            ReportStep::Execute { .. } => 4,
        };
    index(a) < index(b) || (index(a) == index(b) && phase(a) < phase(b))
}

/// Opportunities are handled one after the other, in the order in which they are
/// reported. Each is logged, then alerted, then printed, then executed, as far as these
/// are due.
pub proof fn law_report_is_in_order(cfg: BotConfig, count: nat, k: int, l: int)
    requires
        count <= usize::MAX,
        0 <= k < l < report(cfg, count).len(),
    ensures
        ({
            let index = |step: ReportStep|
                match step {
                    ReportStep::NothingFound => -1int,
                    ReportStep::Announce { index } => index as int,
                    ReportStep::Notify { index } => index as int,
                    ReportStep::Print { index } => index as int,
                    ReportStep::Execute { index } => index as int,
                };
            let phase = |step: ReportStep|
                match step {
                    ReportStep::NothingFound => 0int,
                    ReportStep::Announce { .. } => 1,
                    ReportStep::Notify { .. } => 2,
                    ReportStep::Print { .. } => 3,
                    ReportStep::Execute { .. } => 4,
                };
            let a = report(cfg, count)[k];
            let b = report(cfg, count)[l];
            index(a) < index(b) || (index(a) == index(b) && phase(a) < phase(b))
        }),
{
    lemma_handling_in_order(cfg, count, k, l);
}

/// A report has failed exactly where its last result is an error, and is over exactly
/// where it has failed or every step has a result.
pub proof fn law_when_a_report_is_over<E>(run: ReportRun<E>)
    ensures
        failed(run.spec_results()) <==> run.spec_results().len() > 0
            && run.spec_results()[run.spec_results().len() - 1] is Err,
        run.over() <==> (run.spec_results().len() > 0
            && run.spec_results()[run.spec_results().len() - 1] is Err)
            || run.spec_results().len() >= run.spec_steps().len(),
{
}

} // verus!
