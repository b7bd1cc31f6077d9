//! The state of the strategy, and its steps.
//!
//! Each cycle reconciles what the engine reports, screens every market against
//! its streamed books, confirms what looks profitable against freshly fetched
//! ones, and decides whether a signal goes out. The steps here take what was
//! fetched as arguments and say what is to be done next.

use crate::clob::MarketInfo;
use crate::clob::MarketInfoView;
use crate::collections::StringMap;
use crate::collections::StringSet;
use crate::config::ReserveConfig;
use crate::config::RiskConfig;
use crate::config::RuntimeConfig;
use crate::decimal::checked_add;
use crate::decimal::checked_sub;
use crate::decimal::difference;
use crate::decimal::greater;
use crate::decimal::le;
use crate::decimal::lemma_lt_asymmetric;
use crate::decimal::less;
use crate::decimal::lt;
use crate::decimal::opposite;
use crate::decimal::parsed_decimal;
use crate::decimal::plus;
use crate::decimal::same;
use crate::decimal::sum;
use crate::decimal::sum_of;
use crate::decimal::total;
use crate::decimal::zero;
use crate::decimal::Decimal;
use crate::decision_store::Decision;
use crate::error::StrategyError;
use crate::gamma::is_subscribable;
use crate::gamma::BinaryCryptoMarket;
use crate::gamma::MarketView;
use crate::gate::assessed;
use crate::gate::bucket_of;
use crate::gate::is_relocked;
use crate::gate::locked;
use crate::gate::start_verdict;
use crate::gate::unexpired;
use crate::gate::CalibrationSample;
use crate::gate::CircuitState;
use crate::gate::DurationBucket;
use crate::gate::GateKey;
use crate::gate::GateState;
use crate::gate::GateStatusView;
use crate::ints::clamped_difference;
use crate::ints::gap;
use crate::ints::saturating_difference;
use crate::link::request;
use crate::link::request_for;
use crate::link::RequestView;
use crate::link::SubmitCompleteSetSignalRequest;
use crate::link::SubmitOutcome;
use crate::link::SubmitOutcomeView;
use crate::pricing::best_found;
use crate::pricing::checked_best_for_direction;
use crate::pricing::checked_final_books;
use crate::pricing::final_books_verdict;
use crate::pricing::law_cross_check_passes_when_the_books_agree;
use crate::pricing::levels_for;
use crate::pricing::locks_a_profit;
use crate::pricing::is_fresh;
use crate::pricing::Book;
use crate::pricing::Direction;
use crate::pricing::FeeSchedule;
use crate::pricing::Opportunity;
use crate::pricing::Rejection;
use crate::service::checked_effective_reserves;
use crate::service::episode_text;
use crate::service::heartbeat_map;
use crate::service::is_repeat;
use crate::service::metadata_problem;
use crate::service::next_sequence;
use crate::service::reserves_with;
use crate::service::should_log_rejection;
use crate::service::signal_id;
use crate::service::stable_signal_id;
use crate::service::validate_market_info;
use crate::service::EpisodeTracker;
use crate::text::is_any_of;
use crate::text::is_either;
use crate::text::same_text;
use vstd::prelude::*;
use vstd::string::StringExecFns;

verus! {

/// A signal that was submitted and has not ended.
#[derive(Debug, PartialEq, Eq)]
pub struct Submission {
    pub market_id: String,
    pub direction: Direction,
    pub capital: Decimal,
    pub underlying: String,
}

/// The content of a [`Submission`].
pub struct SubmissionView {
    pub market_id: Seq<char>,
    pub direction: Direction,
    pub capital: Decimal,
    pub underlying: Seq<char>,
}

impl View for Submission {
    type V = SubmissionView;

    open spec fn view(&self) -> SubmissionView {
        SubmissionView {
            market_id: self.market_id@,
            direction: self.direction,
            capital: self.capital,
            underlying: self.underlying@,
        }
    }
}

/// What the engine reports of an execution.
#[derive(Debug, PartialEq, Eq)]
pub struct CompleteSetExecution {
    pub signal_id: String,
    pub market_id: String,
    pub state: String,
    pub recovery_action: String,
    pub close_recovery_state: String,
    pub realized_profit: String,
    pub completed_at_ms: i64,
}

/// What the strategy knows.
#[derive(Debug)]
pub struct StrategyState {
    pub gates: GateState,
    pub circuits: CircuitState,
    pub episodes: EpisodeTracker,
    pub submitted: StringMap<Submission>,
    pub blocked_markets: StringSet,
    pub daily_loss_halted: bool,
    pub market_info: StringMap<MarketInfo>,
    pub rejection_heartbeats: StringMap<(String, i64)>,
    pub cycle_decisions_written: u64,
}

/// The content of the submissions, by signal.
pub open spec fn submission_map(map: Map<Seq<char>, Submission>) -> Map<Seq<char>, SubmissionView> {
    Map::new(|key: Seq<char>| map.contains_key(key), |key: Seq<char>| map[key]@)
}

impl StrategyState {
    /// Nothing known but the gates.
    pub fn new(gates: GateState) -> (r: Self)
        ensures
            r.gates == gates,
            forall|direction: Direction| #[trigger]
                r.circuits.active(direction) == Set::<Seq<char>>::empty(),
            r.circuits.signals() == Seq::<i64>::empty(),
            !r.circuits.orphaned(),
            forall|direction: Direction| #[trigger]
                r.episodes.active(direction) == Map::<Seq<char>, Seq<char>>::empty(),
            r.episodes.count() == 0,
            r.submitted@ == Map::<Seq<char>, Submission>::empty(),
            r.blocked_markets@ == Set::<Seq<char>>::empty(),
            !r.daily_loss_halted,
            r.market_info@ == Map::<Seq<char>, MarketInfo>::empty(),
            r.rejection_heartbeats@ == Map::<Seq<char>, (String, i64)>::empty(),
            r.cycle_decisions_written == 0,
    {
        StrategyState {
            gates,
            circuits: CircuitState::default(),
            episodes: EpisodeTracker::default(),
            submitted: StringMap::new(),
            blocked_markets: StringSet::new(),
            daily_loss_halted: false,
            market_info: StringMap::new(),
            rejection_heartbeats: StringMap::new(),
            cycle_decisions_written: 0,
        }
    }
}

// ---------------------------------------------------------------------------
// Reconciling executions
// ---------------------------------------------------------------------------

/// Whether an execution has ended.
pub open spec fn is_terminal_state(state: Seq<char>) -> bool {
    state == "completed"@ || state == "failed"@ || state == "risk_rejected"@
}

/// Whether an execution has ended.
pub fn is_terminal(execution: &CompleteSetExecution) -> (r: bool)
    ensures
        r == is_terminal_state(execution.state@),
{
    is_any_of(execution.state.as_str(), "completed", "failed", "risk_rejected")
}

/// Whether an execution keeps its market from being traded.
pub open spec fn blocks_market(execution: CompleteSetExecution) -> bool {
    ||| execution.state@ == "recovering"@ || execution.state@ == "unknown"@
    ||| execution.recovery_action@ == "halted"@
    ||| execution.close_recovery_state@ == "running"@ || execution.close_recovery_state@
        == "unknown"@ || execution.close_recovery_state@ == "held_to_resolution"@
}

fn is_blocking(execution: &CompleteSetExecution) -> (r: bool)
    ensures
        r == blocks_market(*execution),
{
    is_either(execution.state.as_str(), "recovering", "unknown") || same_text(
        execution.recovery_action.as_str(),
        "halted",
    ) || is_any_of(
        execution.close_recovery_state.as_str(),
        "running",
        "unknown",
        "held_to_resolution",
    )
}

/// How many executions have ended, and how many there are.
pub fn execution_counts(executions: &Vec<CompleteSetExecution>) -> (r: (usize, usize))
    ensures
        r.0 == terminal_count(executions@),
        r.1 == executions@.len(),
        r.0 <= r.1,
{
    let mut count: usize = 0;
    let mut i: usize = 0;
    while i < executions.len()
        invariant
            i <= executions@.len(),
            count <= i,
            count == terminal_count(executions@.take(i as int)),
        decreases executions@.len() - i,
    {
        assert(executions@.take(i + 1).drop_last() =~= executions@.take(i as int));
        if is_terminal(&executions[i]) {
            count += 1;
        }
        i += 1;
    }
    assert(executions@.take(i as int) =~= executions@);
    (count, executions.len())
}

/// How many executions have ended.
pub open spec fn terminal_count(executions: Seq<CompleteSetExecution>) -> nat
    decreases executions.len(),
{
    if executions.len() == 0 {
        0
    } else {
        terminal_count(executions.drop_last()) + if is_terminal_state(executions.last().state@) {
            1nat
        } else {
            0
        }
    }
}

/// The readable profits of executions completed since the start of the day,
/// added up; `None` where the sum leaves the range of decimals.
pub open spec fn daily_profit(executions: Seq<CompleteSetExecution>, day_start_ms: int) -> Option<
    Decimal,
>
    decreases executions.len(),
{
    if executions.len() == 0 {
        Some(zero())
    } else {
        let before = daily_profit(executions.drop_last(), day_start_ms);
        match parsed_decimal(executions.last().realized_profit@) {
            Some(realized) => if executions.last().completed_at_ms >= day_start_ms {
                plus(before, Some(realized))
            } else {
                before
            },
            None => before,
        }
    }
}

fn checked_daily_profit(executions: &Vec<CompleteSetExecution>, day_start_ms: i64) -> (r: Option<
    Decimal,
>)
    ensures
        r == daily_profit(executions@, day_start_ms as int),
{
    let mut r = Some(Decimal::zero());
    let mut i: usize = 0;
    while i < executions.len()
        invariant
            i <= executions@.len(),
            r == daily_profit(executions@.take(i as int), day_start_ms as int),
        decreases executions@.len() - i,
    {
        assert(executions@.take(i + 1).drop_last() =~= executions@.take(i as int));
        match Decimal::from_text(executions[i].realized_profit.as_str()) {
            Some(realized) => {
                if executions[i].completed_at_ms >= day_start_ms {
                    r = sum_of(r, Some(realized));
                }
            },
            None => {},
        }
        i += 1;
    }
    assert(executions@.take(i as int) =~= executions@);
    r
}

/// The markets that executions block.
pub open spec fn blocked_in(executions: Seq<CompleteSetExecution>) -> Set<Seq<char>>
    decreases executions.len(),
{
    if executions.len() == 0 {
        Set::empty()
    } else if blocks_market(executions.last()) {
        blocked_in(executions.drop_last()).insert(executions.last().market_id@)
    } else {
        blocked_in(executions.drop_last())
    }
}

/// The submissions and the running cycles of both directions.
pub struct Running {
    pub submitted: Map<Seq<char>, SubmissionView>,
    pub buys: Set<Seq<char>>,
    pub sells: Set<Seq<char>>,
}

/// What is still running after an execution was reported: one that has ended
/// ends its submission and the cycle of that.
pub open spec fn settled_by(running: Running, execution: CompleteSetExecution) -> Running {
    let signal = execution.signal_id@;
    if is_terminal_state(execution.state@) && running.submitted.contains_key(signal) {
        let ended = running.submitted[signal];
        Running {
            submitted: running.submitted.remove(signal),
            buys: match ended.direction {
                Direction::BuyMerge => running.buys.remove(ended.market_id),
                Direction::SplitSell => running.buys,
            },
            sells: match ended.direction {
                Direction::BuyMerge => running.sells,
                Direction::SplitSell => running.sells.remove(ended.market_id),
            },
        }
    } else {
        running
    }
}

/// What is still running after executions were reported, in order.
pub open spec fn settled(running: Running, executions: Seq<CompleteSetExecution>) -> Running
    decreases executions.len(),
{
    if executions.len() == 0 {
        running
    } else {
        settled_by(settled(running, executions.drop_last()), executions.last())
    }
}

/// Reports end submissions and start none: what has ended is no longer running,
/// and whatever is running was running before.
pub proof fn law_reports_end_what_has_ended(
    running: Running,
    executions: Seq<CompleteSetExecution>,
    i: int,
)
    requires
        0 <= i < executions.len(),
    ensures
        is_terminal_state(executions[i].state@) ==> !settled(
            running,
            executions,
        ).submitted.contains_key(executions[i].signal_id@),
        settled(running, executions).submitted.submap_of(running.submitted),
        settled(running, executions).buys.subset_of(running.buys),
        settled(running, executions).sells.subset_of(running.sells),
    decreases executions.len(),
{
    let before = executions.drop_last();
    let last = executions.last();
    let earlier = settled(running, before);
    let later = settled(running, executions);
    assert(later == settled_by(earlier, last));
    if executions.len() > 1 {
        if i < before.len() {
            assert(before[i] == executions[i]);
            law_reports_end_what_has_ended(running, before, i);
        } else {
            law_reports_end_what_has_ended(running, before, 0);
        }
    } else {
        assert(earlier == running);
    }
    assert forall|signal: Seq<char>| #[trigger] later.submitted.contains_key(signal) implies
        running.submitted.contains_key(signal) && later.submitted[signal]
        == running.submitted[signal] by {
        assert(earlier.submitted.contains_key(signal));
        assert(later.submitted[signal] == earlier.submitted[signal]);
        assert(earlier.submitted.dom().contains(signal));
    }
    assert(later.submitted.submap_of(running.submitted));
    assert forall|market: Seq<char>| #[trigger] later.buys.contains(market) implies
        running.buys.contains(market) by {
        assert(earlier.buys.contains(market));
    }
    assert forall|market: Seq<char>| #[trigger] later.sells.contains(market) implies
        running.sells.contains(market) by {
        assert(earlier.sells.contains(market));
    }
}

/// Whether an execution has ended a submission of a market and a direction.
pub open spec fn ends(
    execution: CompleteSetExecution,
    submitted: Map<Seq<char>, SubmissionView>,
    market: Seq<char>,
    direction: Direction,
) -> bool {
    &&& execution.state@ == "completed"@ || execution.state@ == "failed"@ || execution.state@
        == "risk_rejected"@
    &&& submitted.contains_key(execution.signal_id@)
    &&& submitted[execution.signal_id@].market_id == market
    &&& submitted[execution.signal_id@].direction == direction
}

/// Whether one of several executions has ended a submission of a market and a
/// direction.
pub open spec fn is_ended(
    executions: Seq<CompleteSetExecution>,
    submitted: Map<Seq<char>, SubmissionView>,
    market: Seq<char>,
    direction: Direction,
) -> bool {
    exists|i: int|
        0 <= i < executions.len() && ends(#[trigger] executions[i], submitted, market, direction)
}

/// Whether one of several executions of a signal has ended.
pub open spec fn has_ended(executions: Seq<CompleteSetExecution>, signal: Seq<char>) -> bool {
    exists|i: int|
        0 <= i < executions.len() && (#[trigger] executions[i]).signal_id@ == signal && (
        executions[i].state@ == "completed"@ || executions[i].state@ == "failed"@
            || executions[i].state@ == "risk_rejected"@)
}

proof fn lemma_one_more_execution(
    executions: Seq<CompleteSetExecution>,
    submitted: Map<Seq<char>, SubmissionView>,
    signal: Seq<char>,
    market: Seq<char>,
    direction: Direction,
)
    requires
        executions.len() > 0,
    ensures
        is_ended(executions, submitted, market, direction) <==> is_ended(
            executions.drop_last(),
            submitted,
            market,
            direction,
        ) || ends(executions.last(), submitted, market, direction),
        has_ended(executions, signal) <==> has_ended(executions.drop_last(), signal) || (
        executions.last().signal_id@ == signal && (executions.last().state@ == "completed"@
            || executions.last().state@ == "failed"@ || executions.last().state@
            == "risk_rejected"@)),
{
    let before = executions.drop_last();
    assert(executions[executions.len() - 1] == executions.last());
    if is_ended(before, submitted, market, direction) {
        let i = choose|i: int|
            0 <= i < before.len() && ends(#[trigger] before[i], submitted, market, direction);
        assert(executions[i] == before[i]);
    }
    if is_ended(executions, submitted, market, direction) {
        let i = choose|i: int|
            0 <= i < executions.len() && ends(
                #[trigger] executions[i],
                submitted,
                market,
                direction,
            );
        if i < before.len() {
            assert(executions[i] == before[i]);
        }
    }
    if has_ended(before, signal) {
        let i = choose|i: int|
            0 <= i < before.len() && (#[trigger] before[i]).signal_id@ == signal && (
            before[i].state@ == "completed"@ || before[i].state@ == "failed"@ || before[i].state@
                == "risk_rejected"@);
        assert(executions[i] == before[i]);
    }
    if has_ended(executions, signal) {
        let i = choose|i: int|
            0 <= i < executions.len() && (#[trigger] executions[i]).signal_id@ == signal && (
            executions[i].state@ == "completed"@ || executions[i].state@ == "failed"@
                || executions[i].state@ == "risk_rejected"@);
        if i < before.len() {
            assert(executions[i] == before[i]);
        }
    }
}

/// A cycle is active after reports exactly when it was active before and none of
/// them has ended a submission of its market and direction, whichever of the two
/// that is; and a submission is running exactly when it was running before and none
/// of the reports of its signal has ended.
pub proof fn law_reports_end_the_cycles_of_what_has_ended(
    running: Running,
    executions: Seq<CompleteSetExecution>,
    market: Seq<char>,
    signal: Seq<char>,
)
    ensures
        settled(running, executions).buys.contains(market) <==> running.buys.contains(market)
            && !is_ended(executions, running.submitted, market, Direction::BuyMerge),
        settled(running, executions).sells.contains(market) <==> running.sells.contains(market)
            && !is_ended(executions, running.submitted, market, Direction::SplitSell),
        settled(running, executions).submitted.contains_key(signal)
            <==> running.submitted.contains_key(signal) && !has_ended(executions, signal),
        settled(running, executions).submitted.contains_key(signal) ==> settled(
            running,
            executions,
        ).submitted[signal] == running.submitted[signal],
    decreases executions.len(),
{
    if executions.len() > 0 {
        let before = executions.drop_last();
        let last = executions.last();
        let earlier = settled(running, before);
        let reported = last.signal_id@;
        law_reports_end_the_cycles_of_what_has_ended(running, before, market, signal);
        law_reports_end_the_cycles_of_what_has_ended(running, before, market, reported);
        lemma_one_more_execution(
            executions,
            running.submitted,
            signal,
            market,
            Direction::BuyMerge,
        );
        lemma_one_more_execution(
            executions,
            running.submitted,
            reported,
            market,
            Direction::SplitSell,
        );
        assert(settled(running, executions) == settled_by(earlier, last));
        if running.submitted.contains_key(reported) && has_ended(before, reported) {
            let i = choose|i: int|
                0 <= i < before.len() && (#[trigger] before[i]).signal_id@ == reported && (
                before[i].state@ == "completed"@ || before[i].state@ == "failed"@
                    || before[i].state@ == "risk_rejected"@);
            let submission = running.submitted[reported];
            assert(ends(
                before[i],
                running.submitted,
                submission.market_id,
                submission.direction,
            ));
            assert(is_ended(
                before,
                running.submitted,
                submission.market_id,
                submission.direction,
            ));
        }
    }
}

impl StrategyState {
    /// What is running.
    pub open spec fn running(self) -> Running {
        Running {
            submitted: submission_map(self.submitted@),
            buys: self.circuits.active(Direction::BuyMerge),
            sells: self.circuits.active(Direction::SplitSell),
        }
    }

    fn settle_execution(&mut self, execution: &CompleteSetExecution)
        ensures
            final(self).running() == settled_by(old(self).running(), *execution),
            final(self).circuits.signals() == old(self).circuits.signals(),
            final(self).circuits.orphaned() == old(self).circuits.orphaned(),
            final(self).gates == old(self).gates,
            final(self).episodes == old(self).episodes,
            final(self).blocked_markets == old(self).blocked_markets,
            final(self).daily_loss_halted == old(self).daily_loss_halted,
            final(self).market_info == old(self).market_info,
            final(self).rejection_heartbeats == old(self).rejection_heartbeats,
            final(self).cycle_decisions_written == old(self).cycle_decisions_written,
    {
        if !is_terminal(execution) {
            return ;
        }
        let ghost before = self.submitted@;
        let ghost was = self.running();
        match self.submitted.remove(execution.signal_id.as_str()) {
            Some(ended) => {
                self.circuits.terminal(ended.market_id.as_str(), ended.direction);
                proof {
                    assert(submission_map(self.submitted@) =~= submission_map(before).remove(
                        execution.signal_id@,
                    ));
                }
            },
            None => {
                assert(self.submitted@ =~= before);
            },
        }
    }

    /// Takes in what the engine reports: which markets are blocked, which cycles
    /// have ended, and whether the day's loss halts the strategy and locks its
    /// gates. Gives `false`, and changes nothing, where the day's profit leaves
    /// the range of decimals.
    pub fn reconcile(
        &mut self,
        executions: &Vec<CompleteSetExecution>,
        now_ms: i64,
        daily_loss_limit: Decimal,
    ) -> (r: bool)
        ensures
            ({
                let profit = daily_profit(executions@, clamped_difference(now_ms, 86_400_000));
                let halted = profit matches Some(p) && le(p, opposite(daily_loss_limit));
                &&& r == profit is Some
                &&& !r ==> *final(self) == *old(self)
                &&& r ==> {
                    &&& final(self).running() == settled(old(self).running(), executions@)
                    &&& forall|direction: Direction, market: Seq<char>|
                        #[trigger] final(self).circuits.active(direction).contains(market) <==> old(
                            self,
                        ).circuits.active(direction).contains(market) && !is_ended(
                            executions@,
                            submission_map(old(self).submitted@),
                            market,
                            direction,
                        )
                    &&& final(self).blocked_markets@ == blocked_in(executions@)
                    &&& !final(self).circuits.orphaned()
                    &&& final(self).circuits.signals() == old(self).circuits.signals()
                    &&& final(self).daily_loss_halted == halted
                    &&& if halted {
                        forall|key: GateKey|
                            is_relocked(
                                #[trigger] final(self).gates.gate(key),
                                old(self).gates.gate(key),
                                "daily_loss_limit"@,
                            )
                    } else {
                        final(self).gates == old(self).gates
                    }
                    &&& final(self).episodes == old(self).episodes
                    &&& final(self).market_info == old(self).market_info
                    &&& final(self).rejection_heartbeats == old(self).rejection_heartbeats
                    &&& final(self).cycle_decisions_written == old(self).cycle_decisions_written
                }
            }),
    {
        let day_start_ms: i64 = saturating_difference(now_ms, 86_400_000);
        let profit = match checked_daily_profit(executions, day_start_ms) {
            Some(p) => p,
            None => return false,
        };
        let ghost start = self.running();
        let ghost given = *self;
        let mut blocked = StringSet::new();
        let mut i: usize = 0;
        while i < executions.len()
            invariant
                i <= executions@.len(),
                blocked@ == blocked_in(executions@.take(i as int)),
                self.running() == settled(start, executions@.take(i as int)),
                self.circuits.signals() == given.circuits.signals(),
                self.gates == given.gates,
                self.episodes == given.episodes,
                self.market_info == given.market_info,
                self.rejection_heartbeats == given.rejection_heartbeats,
                self.cycle_decisions_written == given.cycle_decisions_written,
            decreases executions@.len() - i,
        {
            assert(executions@.take(i + 1).drop_last() =~= executions@.take(i as int));
            if is_blocking(&executions[i]) {
                blocked.insert(executions[i].market_id.clone());
            }
            self.settle_execution(&executions[i]);
            i += 1;
        }
        assert(executions@.take(i as int) =~= executions@);
        proof {
            assert forall|direction: Direction, market: Seq<char>|
                #[trigger] self.circuits.active(direction).contains(market) <==> given.circuits.active(
                    direction,
                ).contains(market) && !is_ended(
                    executions@,
                    start.submitted,
                    market,
                    direction,
                ) by {
                law_reports_end_the_cycles_of_what_has_ended(start, executions@, market, market);
                assert(self.running() == settled(start, executions@));
                assert(self.running().buys == self.circuits.active(Direction::BuyMerge));
                assert(self.running().sells == self.circuits.active(Direction::SplitSell));
            }
        }
        self.blocked_markets = blocked;
        self.circuits.set_unresolved_orphan(false);
        self.daily_loss_halted = !less(daily_loss_limit.negated(), profit);
        if self.daily_loss_halted {
            self.gates.relock_all("daily_loss_limit");
        }
        true
    }
}

// ---------------------------------------------------------------------------
// Screening a market
// ---------------------------------------------------------------------------

/// What the streamed books of a market offer.
#[derive(Clone, Copy, Debug, PartialEq, Eq)]
pub enum Preliminary {
    Found(Opportunity),
    OutsidePriceBand,
    NoProfitableDepth,
}

/// The status of a gate.
pub open spec fn gate_status(gates: GateState, key: GateKey) -> Option<GateStatusView> {
    match gates.gate(key).status {
        Some(status) => Some(status@),
        None => None,
    }
}

/// What a direction offers on two books, with the reserves of its gate.
pub open spec fn offered(
    config: RuntimeConfig,
    gates: GateState,
    bucket: DurationBucket,
    direction: Direction,
    book_a: Book,
    book_b: Book,
    rate: Decimal,
) -> Option<Result<Opportunity, Rejection>> {
    match reserves_with(config.reserves, gate_status(gates, GateKey { direction, bucket })) {
        Some(reserves) => best_found(
            levels_for(book_a, direction),
            levels_for(book_b, direction),
            rate,
            direction,
            config.profitability,
            reserves,
            config.risk,
        ),
        None => None,
    }
}

/// What both directions come to: the more profitable offer, the second of
/// equally profitable ones; the price band is to blame where it is for both.
pub open spec fn preliminary_of(
    bought: Result<Opportunity, Rejection>,
    sold: Result<Opportunity, Rejection>,
) -> Preliminary {
    match (bought, sold) {
        (Ok(a), Ok(b)) => Preliminary::Found(
            if lt(b.net_profit, a.net_profit) {
                a
            } else {
                b
            },
        ),
        (Ok(a), Err(_)) => Preliminary::Found(a),
        (Err(_), Ok(b)) => Preliminary::Found(b),
        (Err(Rejection::OutsidePriceBand), Err(Rejection::OutsidePriceBand)) =>
            Preliminary::OutsidePriceBand,
        (Err(_), Err(_)) => Preliminary::NoProfitableDepth,
    }
}

/// What the streamed books of a market offer; `None` where a number leaves the
/// range of decimals.
pub open spec fn preliminary_found(
    config: RuntimeConfig,
    gates: GateState,
    bucket: DurationBucket,
    book_a: Book,
    book_b: Book,
    rate: Decimal,
) -> Option<Preliminary> {
    match (
        offered(config, gates, bucket, Direction::BuyMerge, book_a, book_b, rate),
        offered(config, gates, bucket, Direction::SplitSell, book_a, book_b, rate),
    ) {
        (Some(bought), Some(sold)) => Some(preliminary_of(bought, sold)),
        _ => None,
    }
}

fn checked_offer(
    config: &RuntimeConfig,
    gates: &GateState,
    bucket: DurationBucket,
    direction: Direction,
    book_a: &Book,
    book_b: &Book,
    fees: &FeeSchedule,
) -> (r: Option<Result<Opportunity, Rejection>>)
    ensures
        r == offered(*config, *gates, bucket, direction, *book_a, *book_b, fees.rate),
        r matches Some(Ok(o)) ==> (config.profitability.minimum_profit.m() > 0 ==> locks_a_profit(
            o,
        )),
{
    match checked_effective_reserves(
        &config.reserves,
        gates.status(GateKey { direction, bucket }),
    ) {
        Some(reserves) => checked_best_for_direction(
            book_a,
            book_b,
            fees,
            direction,
            &config.profitability,
            &reserves,
            &config.risk,
        ),
        None => None,
    }
}

fn checked_preliminary(
    config: &RuntimeConfig,
    gates: &GateState,
    bucket: DurationBucket,
    book_a: &Book,
    book_b: &Book,
    fees: &FeeSchedule,
) -> (r: Option<Preliminary>)
    ensures
        r == preliminary_found(*config, *gates, bucket, *book_a, *book_b, fees.rate),
        r matches Some(Preliminary::Found(o)) ==> (config.profitability.minimum_profit.m() > 0
            ==> locks_a_profit(o)),
{
    let bought = checked_offer(config, gates, bucket, Direction::BuyMerge, book_a, book_b, fees);
    let sold = checked_offer(config, gates, bucket, Direction::SplitSell, book_a, book_b, fees);
    match (bought, sold) {
        (Some(Ok(a)), Some(Ok(b))) => if less(b.net_profit, a.net_profit) {
            Some(Preliminary::Found(a))
        } else {
            Some(Preliminary::Found(b))
        },
        (Some(Ok(a)), Some(Err(_))) => Some(Preliminary::Found(a)),
        (Some(Err(_)), Some(Ok(b))) => Some(Preliminary::Found(b)),
        (Some(Err(Rejection::OutsidePriceBand)), Some(Err(Rejection::OutsidePriceBand))) => Some(
            Preliminary::OutsidePriceBand,
        ),
        (Some(Err(_)), Some(Err(_))) => Some(Preliminary::NoProfitableDepth),
        _ => None,
    }
}

/// A market that looks profitable on its streamed books.
#[derive(Debug)]
pub struct Candidate {
    pub ws_a: Book,
    pub ws_b: Book,
    pub bucket: DurationBucket,
    pub opportunity: Opportunity,
}

/// What screening a market comes to.
#[derive(Debug)]
pub enum Screening {
    /// Nothing to do, and the reason to record.
    Nothing(&'static str),
    Candidate(Candidate),
}

/// What screening comes to, given both streamed books.
pub open spec fn screening_reason(preliminary: Preliminary) -> Option<Seq<char>> {
    match preliminary {
        Preliminary::Found(_) => None,
        Preliminary::OutsidePriceBand => Some("outside_price_band"@),
        Preliminary::NoProfitableDepth => Some("no_profitable_depth"@),
    }
}

/// The first thing that keeps a market from being screened.
pub open spec fn screening_problem(
    market: MarketView,
    info: MarketInfoView,
    books: Map<Seq<char>, Book>,
    now_ms: i64,
) -> Option<StrategyError> {
    if metadata_problem(market, info) is Some {
        metadata_problem(market, info)
    } else if !books.contains_key(market.token_a) {
        Some(StrategyError::TokenABookMissing)
    } else if !books.contains_key(market.token_b) {
        Some(StrategyError::TokenBBookMissing)
    } else if bucket_of(clamped_difference(market.end_time_ms, now_ms)) is None {
        Some(StrategyError::DurationOutsideBuckets)
    } else {
        None
    }
}

impl StrategyState {
    /// Screens a market against its streamed books. Ends its episodes where
    /// nothing is offered. Gives an error where the market cannot be screened,
    /// and [`StrategyError::OutOfRange`] where a number leaves the range of
    /// decimals; nothing changes then.
    pub fn screen(
        &mut self,
        config: &RuntimeConfig,
        market: &BinaryCryptoMarket,
        info: &MarketInfo,
        books: &StringMap<Book>,
        now_ms: i64,
    ) -> (r: Result<Screening, StrategyError>)
        ensures
            ({
                let problem = screening_problem(market@, info@, books@, now_ms);
                let bucket = bucket_of(clamped_difference(market.end_time_ms, now_ms))->0;
                let found = preliminary_found(
                    *config,
                    old(self).gates,
                    bucket,
                    books@[market@.token_a],
                    books@[market@.token_b],
                    market.gamma_fee_rate->0,
                );
                match r {
                    Ok(Screening::Nothing(reason)) => {
                        &&& problem is None
                        &&& found matches Some(p) && screening_reason(p) == Some(reason@)
                        &&& forall|direction: Direction| #[trigger]
                            final(self).episodes.active(direction) == old(self).episodes.active(
                                direction,
                            ).remove(market.market_id@)
                        &&& final(self).episodes.count() == old(self).episodes.count()
                    },
                    Ok(Screening::Candidate(candidate)) => {
                        &&& problem is None
                        &&& found == Some(Preliminary::Found(candidate.opportunity))
                        &&& candidate.bucket == bucket
                        &&& candidate.ws_a@ == books@[market@.token_a]@
                        &&& candidate.ws_b@ == books@[market@.token_b]@
                        &&& config.profitability.minimum_profit.m() > 0 ==> locks_a_profit(
                            candidate.opportunity,
                        )
                        &&& final(self).episodes == old(self).episodes
                    },
                    Err(e) => {
                        &&& problem == Some(e) || (problem is None && found is None && e
                            == StrategyError::OutOfRange)
                        &&& final(self).episodes == old(self).episodes
                    },
                }
            }),
            final(self).gates == old(self).gates,
            final(self).circuits == old(self).circuits,
            final(self).submitted == old(self).submitted,
            final(self).blocked_markets == old(self).blocked_markets,
            final(self).daily_loss_halted == old(self).daily_loss_halted,
            final(self).market_info == old(self).market_info,
            final(self).rejection_heartbeats == old(self).rejection_heartbeats,
            final(self).cycle_decisions_written == old(self).cycle_decisions_written,
    {
        let fees = match validate_market_info(market, info) {
            Ok(fees) => fees,
            Err(e) => return Err(e),
        };
        let ws_a = match books.get(market.outcomes[0].token_id.as_str()) {
            Some(book) => book,
            None => return Err(StrategyError::TokenABookMissing),
        };
        let ws_b = match books.get(market.outcomes[1].token_id.as_str()) {
            Some(book) => book,
            None => return Err(StrategyError::TokenBBookMissing),
        };
        let remaining: i64 = saturating_difference(market.end_time_ms, now_ms);
        let bucket = match DurationBucket::from_remaining_ms(remaining) {
            Some(bucket) => bucket,
            None => return Err(StrategyError::DurationOutsideBuckets),
        };
        match checked_preliminary(config, &self.gates, bucket, ws_a, ws_b, &fees) {
            Some(Preliminary::Found(opportunity)) => Ok(
                Screening::Candidate(
                    Candidate { ws_a: ws_a.clone(), ws_b: ws_b.clone(), bucket, opportunity },
                ),
            ),
            Some(Preliminary::OutsidePriceBand) => {
                self.episodes.close_market(market.market_id.as_str());
                Ok(Screening::Nothing("outside_price_band"))
            },
            Some(Preliminary::NoProfitableDepth) => {
                self.episodes.close_market(market.market_id.as_str());
                Ok(Screening::Nothing("no_profitable_depth"))
            },
            None => Err(StrategyError::OutOfRange),
        }
    }
}

// ---------------------------------------------------------------------------
// Confirming a candidate
// ---------------------------------------------------------------------------

/// The position of the first book of a token.
pub open spec fn book_position(books: Seq<Book>, token: Seq<char>, from: int) -> Option<int>
    decreases books.len() - from,
{
    if from >= books.len() {
        None
    } else if books[from].token_id@ == token {
        Some(from)
    } else {
        book_position(books, token, from + 1)
    }
}

fn find_book(books: &Vec<Book>, token: &str) -> (r: Option<usize>)
    ensures
        match r {
            Some(i) => i < books@.len() && book_position(books@, token@, 0) == Some(i as int),
            None => book_position(books@, token@, 0) is None,
        },
{
    let mut i: usize = 0;
    while i < books.len()
        invariant
            i <= books@.len(),
            book_position(books@, token@, 0) == book_position(books@, token@, i as int),
        decreases books@.len() - i,
    {
        if same_text(books[i].token_id.as_str(), token) {
            return Some(i);
        }
        i += 1;
    }
    None
}

/// A candidate that the fetched books confirm: the opportunity on them, and
/// where the books of both tokens are.
#[derive(Clone, Copy)]
struct Confirmed {
    opportunity: Opportunity,
    index_a: usize,
    index_b: usize,
}

/// What confirming a candidate on fetched books comes to; `None` where a number
/// leaves the range of decimals.
pub open spec fn confirmation(
    config: RuntimeConfig,
    gates: GateState,
    market: MarketView,
    rate: Decimal,
    candidate: Candidate,
    books: Seq<Book>,
    round_trip_ms: u64,
    now_ms: i64,
) -> Option<Result<(Opportunity, int, int), StrategyError>> {
    let at_a = book_position(books, market.token_a, 0);
    let at_b = book_position(books, market.token_b, 0);
    if at_a is None {
        Some(Err(StrategyError::TokenARestBookMissing))
    } else if at_b is None {
        Some(Err(StrategyError::TokenBRestBookMissing))
    } else {
        match final_books_verdict(
            candidate.ws_a,
            candidate.ws_b,
            books[at_a->0],
            books[at_b->0],
            candidate.opportunity.quantity,
            candidate.opportunity.direction,
            market.tick_size,
            now_ms,
            round_trip_ms,
            config.quality,
        ) {
            Some(Ok(_)) => match offered(
                config,
                gates,
                candidate.bucket,
                candidate.opportunity.direction,
                books[at_a->0],
                books[at_b->0],
                rate,
            ) {
                Some(Ok(opportunity)) => Some(Ok((opportunity, at_a->0, at_b->0))),
                Some(Err(_)) => Some(Err(StrategyError::OpportunityDisappeared)),
                None => None,
            },
            Some(Err(e)) => Some(Err(e)),
            None => None,
        }
    }
}

proof fn lemma_book_position(books: Seq<Book>, token: Seq<char>, from: int)
    requires
        0 <= from,
    ensures
        book_position(books, token, from) matches Some(i) ==> from <= i < books.len()
            && books[i].token_id@ == token,
    decreases books.len() - from,
{
    if from < books.len() && books[from].token_id@ != token {
        lemma_book_position(books, token, from + 1);
    }
}

/// A confirmed offer was cross-checked: it is on fetched books of the two tokens
/// of the market that came back in time, that are of the same markets and tokens
/// as the streamed ones, and all four are fresh and, by pairs, not skewed.
pub proof fn law_confirmed_offers_are_cross_checked(
    config: RuntimeConfig,
    gates: GateState,
    market: MarketView,
    rate: Decimal,
    candidate: Candidate,
    books: Seq<Book>,
    round_trip_ms: u64,
    now_ms: i64,
)
    ensures
        confirmation(
            config,
            gates,
            market,
            rate,
            candidate,
            books,
            round_trip_ms,
            now_ms,
        ) matches Some(Ok((opportunity, a, b))) ==> {
            let limit = config.quality.max_book_age_ms;
            let skew = config.quality.max_token_skew_ms;
            &&& 0 <= a < books.len() && 0 <= b < books.len()
            &&& books[a].token_id@ == market.token_a && books[b].token_id@ == market.token_b
            &&& round_trip_ms <= config.quality.max_rest_round_trip_ms
            &&& candidate.ws_a.token_id@ == books[a].token_id@ && candidate.ws_a.market_id@
                == books[a].market_id@
            &&& candidate.ws_b.token_id@ == books[b].token_id@ && candidate.ws_b.market_id@
                == books[b].market_id@
            &&& is_fresh(candidate.ws_a.updated_at_ms, now_ms, limit) && is_fresh(
                books[a].updated_at_ms,
                now_ms,
                limit,
            )
            &&& is_fresh(candidate.ws_b.updated_at_ms, now_ms, limit) && is_fresh(
                books[b].updated_at_ms,
                now_ms,
                limit,
            )
            &&& gap(candidate.ws_a.updated_at_ms, candidate.ws_b.updated_at_ms) <= skew
            &&& gap(books[a].updated_at_ms, books[b].updated_at_ms) <= skew
        },
{
    lemma_book_position(books, market.token_a, 0);
    lemma_book_position(books, market.token_b, 0);
}

impl StrategyState {
    /// Confirms a candidate on freshly fetched books. Gives
    /// [`StrategyError::OutOfRange`] where a number leaves the range of decimals.
    fn confirm(
        &self,
        config: &RuntimeConfig,
        market: &BinaryCryptoMarket,
        fees: &FeeSchedule,
        candidate: &Candidate,
        books: &Vec<Book>,
        round_trip_ms: u64,
        now_ms: i64,
    ) -> (r: Result<Confirmed, StrategyError>)
        ensures
            ({
                let expected = confirmation(
                    *config,
                    self.gates,
                    market@,
                    fees.rate,
                    *candidate,
                    books@,
                    round_trip_ms,
                    now_ms,
                );
                match r {
                    Ok(c) => {
                        &&& expected == Some(
                            Ok::<(Opportunity, int, int), StrategyError>(
                                (c.opportunity, c.index_a as int, c.index_b as int),
                            ),
                        )
                        &&& c.index_a < books@.len()
                        &&& c.index_b < books@.len()
                        &&& config.profitability.minimum_profit.m() > 0 ==> locks_a_profit(
                            c.opportunity,
                        )
                    },
                    Err(e) => expected == Some(Err::<(Opportunity, int, int), StrategyError>(e))
                        || (expected is None && e == StrategyError::OutOfRange),
                }
            }),
    {
        let index_a: usize = match find_book(books, market.outcomes[0].token_id.as_str()) {
            Some(i) => i,
            None => return Err(StrategyError::TokenARestBookMissing),
        };
        let index_b: usize = match find_book(books, market.outcomes[1].token_id.as_str()) {
            Some(i) => i,
            None => return Err(StrategyError::TokenBRestBookMissing),
        };
        let verdict = checked_final_books(
            &candidate.ws_a,
            &candidate.ws_b,
            &books[index_a],
            &books[index_b],
            candidate.opportunity.quantity,
            candidate.opportunity.direction,
            market.tick_size,
            now_ms,
            round_trip_ms,
            &config.quality,
        );
        match verdict {
            Some(Ok(_)) => {},
            Some(Err(e)) => return Err(e),
            None => return Err(StrategyError::OutOfRange),
        }
        match checked_offer(
            config,
            &self.gates,
            candidate.bucket,
            candidate.opportunity.direction,
            &books[index_a],
            &books[index_b],
            fees,
        ) {
            Some(Ok(opportunity)) => Ok(Confirmed { opportunity, index_a, index_b }),
            Some(Err(_)) => Err(StrategyError::OpportunityDisappeared),
            None => Err(StrategyError::OutOfRange),
        }
    }
}

// ---------------------------------------------------------------------------
// Risk
// ---------------------------------------------------------------------------

/// The capital of the submissions that count, in the order of their signals.
pub open spec fn exposure(
    submissions: Seq<(Seq<char>, Submission)>,
    counts: spec_fn(SubmissionView) -> bool,
) -> Option<Decimal>
    decreases submissions.len(),
{
    if submissions.len() == 0 {
        Some(zero())
    } else if counts(submissions.last().1@) {
        plus(exposure(submissions.drop_last(), counts), Some(submissions.last().1.capital))
    } else {
        exposure(submissions.drop_last(), counts)
    }
}

/// The capital at work in a market.
pub open spec fn market_exposure(
    submissions: Seq<(Seq<char>, Submission)>,
    market: MarketView,
) -> Option<Decimal> {
    exposure(submissions, |s: SubmissionView| s.market_id == market.market_id)
}

/// The capital at work on an underlying.
pub open spec fn underlying_exposure(
    submissions: Seq<(Seq<char>, Submission)>,
    market: MarketView,
) -> Option<Decimal> {
    exposure(submissions, |s: SubmissionView| s.underlying == market.underlying)
}

/// All capital at work.
pub open spec fn aggregate_exposure(submissions: Seq<(Seq<char>, Submission)>) -> Option<Decimal> {
    exposure(submissions, |s: SubmissionView| true)
}

/// Whether more capital would go over a limit; `None` where the sum leaves the
/// range of decimals.
pub open spec fn goes_over(held: Decimal, more: Decimal, limit: Decimal) -> Option<bool> {
    match sum(held, more) {
        Some(whole) => Some(lt(limit, whole)),
        None => None,
    }
}

/// Whether the limits on risk admit an opportunity; `None` where a number leaves
/// the range of decimals.
pub open spec fn risk_verdict(
    daily_loss_halted: bool,
    submissions: Seq<(Seq<char>, Submission)>,
    market: MarketView,
    opportunity: Opportunity,
    risk: RiskConfig,
    reserves: ReserveConfig,
) -> Option<Result<(), StrategyError>> {
    let capital = opportunity.capital;
    if daily_loss_halted {
        Some(Err(StrategyError::DailyLossHalted))
    } else {
        match (
            market_exposure(submissions, market),
            underlying_exposure(submissions, market),
            aggregate_exposure(submissions),
        ) {
            (Some(in_market), Some(on_underlying), Some(in_all)) => if lt(
                risk.max_per_cycle,
                capital,
            ) {
                Some(Err(StrategyError::RiskLimit))
            } else {
                match goes_over(in_market, capital, risk.max_per_market) {
                    Some(true) => Some(Err(StrategyError::RiskLimit)),
                    Some(false) => match goes_over(
                        on_underlying,
                        capital,
                        risk.max_per_underlying,
                    ) {
                        Some(true) => Some(Err(StrategyError::RiskLimit)),
                        Some(false) => match goes_over(in_all, capital, risk.max_aggregate) {
                            Some(true) => Some(Err(StrategyError::RiskLimit)),
                            Some(false) => if lt(risk.max_orphan_loss, reserves.orphan) {
                                Some(Err(StrategyError::RiskLimit))
                            } else {
                                Some(Ok(()))
                            },
                            None => None,
                        },
                        None => None,
                    },
                    None => None,
                }
            },
            _ => None,
        }
    }
}

fn is_over(held: Decimal, more: Decimal, limit: Decimal) -> (r: Option<bool>)
    ensures
        r == goes_over(held, more, limit),
{
    match checked_add(held, more) {
        Some(whole) => Some(less(limit, whole)),
        None => None,
    }
}

impl StrategyState {
    fn checked_exposures(&self, market: &BinaryCryptoMarket) -> (r: (
        Option<Decimal>,
        Option<Decimal>,
        Option<Decimal>,
    ))
        ensures
            r.0 == market_exposure(self.submitted.pairs(), market@),
            r.1 == underlying_exposure(self.submitted.pairs(), market@),
            r.2 == aggregate_exposure(self.submitted.pairs()),
    {
        let ghost pairs = self.submitted.pairs();
        let mut in_market = Some(Decimal::zero());
        let mut on_underlying = Some(Decimal::zero());
        let mut in_all = Some(Decimal::zero());
        let mut i: usize = 0;
        while i < self.submitted.len()
            invariant
                i <= pairs.len(),
                pairs == self.submitted.pairs(),
                in_market == market_exposure(pairs.take(i as int), market@),
                on_underlying == underlying_exposure(pairs.take(i as int), market@),
                in_all == aggregate_exposure(pairs.take(i as int)),
            decreases pairs.len() - i,
        {
            assert(pairs.take(i + 1).drop_last() =~= pairs.take(i as int));
            assert(pairs.take(i + 1).last() == pairs[i as int]);
            let submission = self.submitted.value_at(i);
            if same_text(submission.market_id.as_str(), market.market_id.as_str()) {
                in_market = sum_of(in_market, Some(submission.capital));
            }
            if same_text(submission.underlying.as_str(), market.underlying.as_str()) {
                on_underlying = sum_of(on_underlying, Some(submission.capital));
            }
            in_all = sum_of(in_all, Some(submission.capital));
            i += 1;
        }
        assert(pairs.take(i as int) =~= pairs);
        (in_market, on_underlying, in_all)
    }

    pub(crate) fn checked_risk(
        &self,
        config: &RuntimeConfig,
        market: &BinaryCryptoMarket,
        opportunity: &Opportunity,
    ) -> (r: Option<Result<(), StrategyError>>)
        ensures
            r == risk_verdict(
                self.daily_loss_halted,
                self.submitted.pairs(),
                market@,
                *opportunity,
                config.risk,
                config.reserves,
            ),
    {
        if self.daily_loss_halted {
            return Some(Err(StrategyError::DailyLossHalted));
        }
        let (in_market, on_underlying, in_all) = match self.checked_exposures(market) {
            (Some(m), Some(u), Some(a)) => (m, u, a),
            _ => return None,
        };
        let capital = opportunity.capital;
        if less(config.risk.max_per_cycle, capital) {
            return Some(Err(StrategyError::RiskLimit));
        }
        match is_over(in_market, capital, config.risk.max_per_market) {
            Some(true) => return Some(Err(StrategyError::RiskLimit)),
            Some(false) => {},
            None => return None,
        }
        match is_over(on_underlying, capital, config.risk.max_per_underlying) {
            Some(true) => return Some(Err(StrategyError::RiskLimit)),
            Some(false) => {},
            None => return None,
        }
        match is_over(in_all, capital, config.risk.max_aggregate) {
            Some(true) => return Some(Err(StrategyError::RiskLimit)),
            Some(false) => {},
            None => return None,
        }
        if less(config.risk.max_orphan_loss, config.reserves.orphan) {
            return Some(Err(StrategyError::RiskLimit));
        }
        Some(Ok(()))
    }

    /// Whether the limits on risk admit an opportunity: those of a cycle, of its
    /// market, of its underlying, of everything, and on orphaned legs.
    pub fn check_risk(
        &self,
        config: &RuntimeConfig,
        market: &BinaryCryptoMarket,
        opportunity: &Opportunity,
    ) -> (r: Result<(), StrategyError>)
        requires
            risk_verdict(
                self.daily_loss_halted,
                self.submitted.pairs(),
                market@,
                *opportunity,
                config.risk,
                config.reserves,
            ) is Some,
        ensures
            Some(r) == risk_verdict(
                self.daily_loss_halted,
                self.submitted.pairs(),
                market@,
                *opportunity,
                config.risk,
                config.reserves,
            ),
    {
        self.checked_risk(config, market, opportunity).unwrap()
    }

    /// [`StrategyState::check_risk`], where every number stays in the range of
    /// decimals.
    pub fn try_check_risk(
        &self,
        config: &RuntimeConfig,
        market: &BinaryCryptoMarket,
        opportunity: &Opportunity,
    ) -> (r: Option<Result<(), StrategyError>>)
        ensures
            r == risk_verdict(
                self.daily_loss_halted,
                self.submitted.pairs(),
                market@,
                *opportunity,
                config.risk,
                config.reserves,
            ),
    {
        match self.checked_risk(config, market, opportunity) {
            Some(_) => Some(self.check_risk(config, market, opportunity)),
            None => None,
        }
    }
}

/// What the limits on risk admit stays within every one of them, and nothing is
/// admitted while the day's loss halts the strategy.
pub proof fn law_admitted_risk_is_within_limits(
    daily_loss_halted: bool,
    submissions: Seq<(Seq<char>, Submission)>,
    market: MarketView,
    opportunity: Opportunity,
    risk: RiskConfig,
    reserves: ReserveConfig,
)
    requires
        risk_verdict(
            daily_loss_halted,
            submissions,
            market,
            opportunity,
            risk,
            reserves,
        ) matches Some(Ok(_)),
    ensures
        !daily_loss_halted,
        le(opportunity.capital, risk.max_per_cycle),
        plus(market_exposure(submissions, market), Some(opportunity.capital)) matches Some(whole)
            && le(whole, risk.max_per_market),
        plus(underlying_exposure(submissions, market), Some(opportunity.capital)) matches Some(
            whole,
        ) && le(whole, risk.max_per_underlying),
        plus(aggregate_exposure(submissions), Some(opportunity.capital)) matches Some(whole) && le(
            whole,
            risk.max_aggregate,
        ),
        le(reserves.orphan, risk.max_orphan_loss),
{
}

// ---------------------------------------------------------------------------
// Episodes and gates
// ---------------------------------------------------------------------------

/// The identifier of the episode that an offer belongs to.
pub open spec fn episode_of(
    running: Map<Seq<char>, Seq<char>>,
    count: u64,
    market_id: Seq<char>,
    direction: Direction,
) -> Seq<char> {
    if running.contains_key(market_id) {
        running[market_id]
    } else {
        episode_text(market_id, direction, next_sequence(count))
    }
}

/// The sample of a confirmed offer.
pub open spec fn is_sample_of(
    sample: CalibrationSample,
    episode: Seq<char>,
    now_ms: i64,
    net_profit: Decimal,
    slippage: Decimal,
    latency_cost: Decimal,
) -> bool {
    &&& sample.episode_id@ == episode
    &&& sample.observed_at_ms == now_ms
    &&& sample.terminal
    &&& sample.valid_data
    &&& !sample.unresolved_orphan
    &&& sample.net_profit == net_profit
    &&& sample.slippage == slippage
    &&& sample.latency_cost == latency_cost
    &&& sample.orphan_loss == zero()
}

impl StrategyState {
    /// Notes a confirmed offer: the episode of its direction runs on or starts,
    /// that of the other direction ends, and its gate gets a sample the first
    /// time that the episode is seen. Gives that sample; `None`, with nothing
    /// changed, where the slippage leaves the range of decimals.
    fn observe_episode(
        &mut self,
        latency_cost: Decimal,
        market: &BinaryCryptoMarket,
        now_ms: i64,
        bucket: DurationBucket,
        preliminary: &Opportunity,
        confirmed: &Opportunity,
    ) -> (r: Option<Option<CalibrationSample>>)
        ensures
            ({
                let direction = confirmed.direction;
                let key = GateKey { direction, bucket };
                let slipped = difference(preliminary.net_profit, confirmed.net_profit);
                let running = old(self).episodes.active(direction);
                let id = episode_of(
                    running,
                    old(self).episodes.count(),
                    market.market_id@,
                    direction,
                );
                let known = old(self).gates.gate(key).episodes@.contains(id);
                match r {
                    None => slipped is None && *final(self) == *old(self),
                    Some(recorded) => {
                        &&& slipped is Some
                        &&& final(self).episodes.active(direction) == running.insert(
                            market.market_id@,
                            id,
                        )
                        &&& forall|other: Direction|
                            other != direction ==> #[trigger] final(self).episodes.active(other)
                                == old(self).episodes.active(other).remove(market.market_id@)
                        &&& final(self).episodes.count() == if running.contains_key(
                            market.market_id@,
                        ) {
                            old(self).episodes.count()
                        } else {
                            next_sequence(old(self).episodes.count())
                        }
                        &&& final(self).gates.differs_only_at(old(self).gates, key)
                        &&& final(self).gates.gate(key).status == old(self).gates.gate(key).status
                        &&& final(self).gates.gate(key).episodes@ == old(self).gates.gate(
                            key,
                        ).episodes@.insert(id)
                        &&& match recorded {
                            Some(sample) => {
                                &&& !known
                                &&& is_sample_of(
                                    sample,
                                    id,
                                    now_ms,
                                    confirmed.net_profit,
                                    greater(slipped->0, zero()),
                                    latency_cost,
                                )
                                &&& final(self).gates.gate(key).samples@ == old(self).gates.gate(
                                    key,
                                ).samples@.push(sample)
                            },
                            None => {
                                &&& known
                                &&& final(self).gates.gate(key).samples@ == old(self).gates.gate(
                                    key,
                                ).samples@
                            },
                        }
                    },
                }
            }),
            final(self).circuits == old(self).circuits,
            final(self).submitted == old(self).submitted,
            final(self).blocked_markets == old(self).blocked_markets,
            final(self).daily_loss_halted == old(self).daily_loss_halted,
            final(self).market_info == old(self).market_info,
            final(self).rejection_heartbeats == old(self).rejection_heartbeats,
            final(self).cycle_decisions_written == old(self).cycle_decisions_written,
    {
        let slipped = match checked_sub(preliminary.net_profit, confirmed.net_profit) {
            Some(d) => d,
            None => return None,
        };
        let direction = confirmed.direction;
        let ghost running = self.episodes.active(direction);
        self.episodes.close_other_directions(market.market_id.as_str(), direction);
        let episode_id = self.episodes.episode(market.market_id.as_str(), direction);
        proof {
            if running.contains_key(market.market_id@) {
                assert(running.insert(market.market_id@, running[market.market_id@]) =~= running);
            }
        }
        let sample = CalibrationSample {
            episode_id,
            observed_at_ms: now_ms,
            terminal: true,
            valid_data: true,
            unresolved_orphan: false,
            net_profit: confirmed.net_profit,
            slippage: slipped.max(Decimal::zero()),
            latency_cost,
            orphan_loss: Decimal::zero(),
        };
        if self.gates.record(GateKey { direction, bucket }, sample.clone()) {
            Some(Some(sample))
        } else {
            Some(None)
        }
    }
}

// ---------------------------------------------------------------------------
// Deciding on a signal
// ---------------------------------------------------------------------------

/// What is done with a confirmed offer.
#[derive(Debug)]
pub enum Next {
    /// Nothing goes out, and the reason to record.
    Hold(&'static str),
    /// A signal goes out.
    Submit(SubmitCompleteSetSignalRequest),
}

/// What is done with a confirmed offer, before there is a signal.
pub enum Step {
    Locked,
    ObserveOnly,
    Blocked,
    Refused(StrategyError),
    OutOfRange,
    Send,
}

/// What is done with a confirmed offer: its gate, the observe-only mode, a
/// blocked market, the limits on risk and the circuit breakers each may hold it
/// back, in this order.
pub open spec fn step_for(
    unlocked: bool,
    observe_only: bool,
    blocked: bool,
    risk: Option<Result<(), StrategyError>>,
    start: Result<(), StrategyError>,
) -> Step {
    if !unlocked {
        Step::Locked
    } else if observe_only {
        Step::ObserveOnly
    } else if blocked {
        Step::Blocked
    } else {
        match risk {
            None => Step::OutOfRange,
            Some(Err(e)) => Step::Refused(e),
            Some(Ok(_)) => match start {
                Err(e) => Step::Refused(e),
                Ok(_) => Step::Send,
            },
        }
    }
}

/// Whether what is done next is what a step asks for.
pub open spec fn is_next(
    next: Result<Next, StrategyError>,
    step: Step,
    signal: RequestView,
) -> bool {
    match step {
        Step::Locked => next matches Ok(Next::Hold(reason)) && reason@
            == "calibration_gate_locked"@,
        Step::ObserveOnly => next matches Ok(Next::Hold(reason)) && reason@
            == "forced_observe_only"@,
        Step::Blocked => next matches Ok(Next::Hold(reason)) && reason@
            == "market_close_recovery_blocked"@,
        Step::Refused(e) => next matches Err(refused) && refused == e,
        Step::OutOfRange => next matches Err(StrategyError::OutOfRange),
        Step::Send => next matches Ok(Next::Submit(sent)) && sent@ == signal,
    }
}

/// The recent signals after a decision: the circuit breakers, which forget the
/// old ones, are asked where everything before them admits the offer.
pub open spec fn signals_after(
    signals: Seq<i64>,
    step: Step,
    risk: Option<Result<(), StrategyError>>,
    now_ms: i64,
) -> Seq<i64> {
    if !(step is Locked) && !(step is ObserveOnly) && !(step is Blocked) && (risk matches Some(
        Ok(_),
    )) {
        unexpired(signals, now_ms)
    } else {
        signals
    }
}

/// The signal for an offer on two books.
pub open spec fn signal_for(
    config: RuntimeConfig,
    market: MarketView,
    opportunity: Opportunity,
    book_a_ms: i64,
    book_b_ms: i64,
    now_ms: i64,
) -> RequestView {
    request_for(
        signal_id(market.market_id, opportunity, book_a_ms, book_b_ms),
        config.link.strategy_id@,
        config.link.source@,
        market,
        opportunity,
        book_a_ms,
        book_b_ms,
        now_ms,
        config.recovery.enabled,
        config.recovery.close_lead_ms,
        config.risk.max_orphan_loss,
    )
}

/// A signal goes out only where its gate is unlocked, signals are not forced to
/// be observed only, its market is not blocked, and the limits on risk and the
/// circuit breakers admit it.
pub proof fn law_only_admitted_signals_go_out(
    unlocked: bool,
    observe_only: bool,
    blocked: bool,
    risk: Option<Result<(), StrategyError>>,
    start: Result<(), StrategyError>,
)
    ensures
        step_for(unlocked, observe_only, blocked, risk, start) is Send <==> unlocked
            && !observe_only && !blocked && (risk matches Some(Ok(_))) && start is Ok,
{
}

/// What an offer was confirmed from.
pub struct Origin {
    pub config: RuntimeConfig,
    pub gates: GateState,
    pub market: MarketView,
    pub info: MarketInfoView,
    pub candidate: Candidate,
    pub books: Seq<Book>,
    pub round_trip_ms: u64,
    pub now_ms: i64,
}

impl Origin {
    /// What confirming the candidate on the fetched books comes to, at the fee rate
    /// of the market.
    pub open spec fn confirmation(self) -> Option<Result<(Opportunity, int, int), StrategyError>> {
        confirmation(
            self.config,
            self.gates,
            self.market,
            self.market.gamma_fee_rate->0,
            self.candidate,
            self.books,
            self.round_trip_ms,
            self.now_ms,
        )
    }

    /// Whether the fetched market info agrees with the market, the fetched books
    /// `a` and `b` confirm the offer, and it locks a profit.
    pub open spec fn confirms(self, opportunity: Opportunity, a: Book, b: Book) -> bool {
        &&& metadata_problem(self.market, self.info) is None
        &&& self.confirmation() matches Some(Ok((o, at_a, at_b))) && o == opportunity && a
            == self.books[at_a] && b == self.books[at_b]
        &&& self.config.profitability.minimum_profit.m() > 0 ==> locks_a_profit(opportunity)
    }
}

/// A confirmed offer whose episode was noted. Only [`StrategyState::observe`] makes
/// one, and only for such an offer can a signal go out.
pub struct Observed<'a> {
    market: &'a BinaryCryptoMarket,
    rest_a: &'a Book,
    rest_b: &'a Book,
    bucket: DurationBucket,
    now_ms: i64,
    opportunity: Opportunity,
    sample: Option<CalibrationSample>,
    origin: Ghost<Origin>,
}

impl<'a> Observed<'a> {
    #[verifier::type_invariant]
    spec fn is_confirmed(self) -> bool {
        &&& self.origin@.confirms(self.opportunity, *self.rest_a, *self.rest_b)
        &&& self.market@ == self.origin@.market
        &&& self.bucket == self.origin@.candidate.bucket
        &&& self.now_ms == self.origin@.now_ms
    }

    /// What the offer was confirmed from.
    pub closed spec fn origin(self) -> Origin {
        self.origin@
    }

    /// The confirmed offer.
    pub closed spec fn offer(self) -> Opportunity {
        self.opportunity
    }

    /// The fetched book of the first token.
    pub closed spec fn book_a(self) -> Book {
        *self.rest_a
    }

    /// The fetched book of the second token.
    pub closed spec fn book_b(self) -> Book {
        *self.rest_b
    }

    /// The sample of the offer, where its episode is new.
    pub closed spec fn new_sample(self) -> Option<CalibrationSample> {
        self.sample
    }

    /// The confirmed offer.
    pub fn opportunity(&self) -> (r: &Opportunity)
        ensures
            *r == self.offer(),
    {
        &self.opportunity
    }

    /// The sample of the offer, where its episode is new.
    pub fn sample(&self) -> (r: Option<&CalibrationSample>)
        ensures
            match r {
                Some(sample) => self.new_sample() == Some(*sample),
                None => self.new_sample() is None,
            },
    {
        match &self.sample {
            Some(sample) => Some(sample),
            None => None,
        }
    }
}

/// The first thing that keeps a candidate from being observed: the market info, the
/// confirmation on the fetched books, or a slippage beyond the range of decimals.
pub open spec fn observation_problem(
    metadata: Option<StrategyError>,
    confirmed: Option<Result<(Opportunity, int, int), StrategyError>>,
    preliminary: Opportunity,
) -> Option<StrategyError> {
    if metadata is Some {
        metadata
    } else {
        match confirmed {
            None => Some(StrategyError::OutOfRange),
            Some(Err(e)) => Some(e),
            Some(Ok((o, _, _))) => if difference(
                preliminary.net_profit,
                o.net_profit,
            ) is None {
                Some(StrategyError::OutOfRange)
            } else {
                None
            },
        }
    }
}

impl StrategyState {
    /// The status that an assessment under a key comes to.
    pub open spec fn assessment(
        self,
        config: RuntimeConfig,
        key: GateKey,
        now_ms: i64,
    ) -> Option<GateStatusView> {
        assessed(
            self.gates.gate(key).status_or_initial(),
            self.gates.gate(key).samples@,
            now_ms,
            config.calibration.minimum_age_hours,
            config.calibration.minimum_cycles,
            config.calibration.minimum_coverage,
        )
    }

    /// Keeps market info that was fetched afresh, in place of what was kept for the
    /// condition before. Gives an error, with nothing changed, where it disagrees
    /// with the market.
    pub fn refresh_info(&mut self, market: &BinaryCryptoMarket, info: MarketInfo) -> (r: Result<
        (),
        StrategyError,
    >)
        ensures
            match r {
                Err(e) => metadata_problem(market@, info@) == Some(e) && *final(self) == *old(self),
                Ok(_) => {
                    &&& metadata_problem(market@, info@) is None
                    &&& final(self).market_info@ == old(self).market_info@.insert(
                        market.condition_id@,
                        info,
                    )
                },
            },
            final(self).gates == old(self).gates,
            final(self).episodes == old(self).episodes,
            final(self).circuits == old(self).circuits,
            final(self).submitted == old(self).submitted,
            final(self).blocked_markets == old(self).blocked_markets,
            final(self).daily_loss_halted == old(self).daily_loss_halted,
            final(self).rejection_heartbeats == old(self).rejection_heartbeats,
            final(self).cycle_decisions_written == old(self).cycle_decisions_written,
    {
        match validate_market_info(market, &info) {
            Ok(_) => {},
            Err(e) => return Err(e),
        }
        self.market_info.insert(market.condition_id.clone(), info);
        Ok(())
    }

    /// Confirms a candidate, given the market info and the books fetched for it,
    /// and notes the episode of what they confirm: it runs on or starts, that of
    /// the other direction ends, and its gate gets a sample the first time that it
    /// is seen. Gives an error, with nothing changed, where the offer is not
    /// confirmed; [`StrategyError::OutOfRange`] where a number leaves the range of
    /// decimals.
    pub fn observe<'a>(
        &mut self,
        config: &RuntimeConfig,
        market: &'a BinaryCryptoMarket,
        info: &MarketInfo,
        candidate: &Candidate,
        books: &'a Vec<Book>,
        round_trip_ms: u64,
        now_ms: i64,
    ) -> (r: Result<Observed<'a>, StrategyError>)
        ensures
            ({
                let origin = Origin {
                    config: *config,
                    gates: old(self).gates,
                    market: market@,
                    info: info@,
                    candidate: *candidate,
                    books: books@,
                    round_trip_ms,
                    now_ms,
                };
                let refusal = observation_problem(
                    metadata_problem(market@, info@),
                    origin.confirmation(),
                    candidate.opportunity,
                );
                match r {
                    Err(e) => refusal == Some(e) && *final(self) == *old(self),
                    Ok(observed) => {
                        let o = observed.offer();
                        let key = GateKey { direction: o.direction, bucket: candidate.bucket };
                        let gate = old(self).gates.gate(key);
                        let running = old(self).episodes.active(o.direction);
                        let id = episode_of(
                            running,
                            old(self).episodes.count(),
                            market.market_id@,
                            o.direction,
                        );
                        &&& refusal is None
                        &&& observed.origin() == origin
                        &&& origin.confirms(o, observed.book_a(), observed.book_b())
                        &&& match observed.new_sample() {
                            Some(sample) => {
                                &&& !gate.episodes@.contains(id)
                                &&& is_sample_of(
                                    sample,
                                    id,
                                    now_ms,
                                    o.net_profit,
                                    greater(
                                        difference(
                                            candidate.opportunity.net_profit,
                                            o.net_profit,
                                        )->0,
                                        zero(),
                                    ),
                                    config.reserves.latency,
                                )
                                &&& final(self).gates.gate(key).samples@ == gate.samples@.push(
                                    sample,
                                )
                            },
                            None => {
                                &&& gate.episodes@.contains(id)
                                &&& final(self).gates.gate(key).samples@ == gate.samples@
                            },
                        }
                        &&& final(self).gates.differs_only_at(old(self).gates, key)
                        &&& final(self).gates.gate(key).status == gate.status
                        &&& final(self).gates.gate(key).episodes@ == gate.episodes@.insert(id)
                        &&& final(self).episodes.active(o.direction) == running.insert(
                            market.market_id@,
                            id,
                        )
                        &&& forall|other: Direction|
                            other != o.direction ==> #[trigger] final(self).episodes.active(other)
                                == old(self).episodes.active(other).remove(market.market_id@)
                        &&& final(self).episodes.count() == if running.contains_key(
                            market.market_id@,
                        ) {
                            old(self).episodes.count()
                        } else {
                            next_sequence(old(self).episodes.count())
                        }
                    },
                }
            }),
            final(self).circuits == old(self).circuits,
            final(self).submitted == old(self).submitted,
            final(self).blocked_markets == old(self).blocked_markets,
            final(self).daily_loss_halted == old(self).daily_loss_halted,
            final(self).market_info == old(self).market_info,
            final(self).rejection_heartbeats == old(self).rejection_heartbeats,
            final(self).cycle_decisions_written == old(self).cycle_decisions_written,
    {
        let ghost origin = Origin {
            config: *config,
            gates: self.gates,
            market: market@,
            info: info@,
            candidate: *candidate,
            books: books@,
            round_trip_ms,
            now_ms,
        };
        let fees = match validate_market_info(market, info) {
            Ok(fees) => fees,
            Err(e) => return Err(e),
        };
        let confirmed = match self.confirm(
            config,
            market,
            &fees,
            candidate,
            books,
            round_trip_ms,
            now_ms,
        ) {
            Ok(confirmed) => confirmed,
            Err(e) => return Err(e),
        };
        let sample = match self.observe_episode(
            config.reserves.latency,
            market,
            now_ms,
            candidate.bucket,
            &candidate.opportunity,
            &confirmed.opportunity,
        ) {
            Some(sample) => sample,
            None => return Err(StrategyError::OutOfRange),
        };
        Ok(
            Observed {
                market,
                rest_a: &books[confirmed.index_a],
                rest_b: &books[confirmed.index_b],
                bucket: candidate.bucket,
                now_ms,
                opportunity: confirmed.opportunity,
                sample,
                origin: Ghost(origin),
            },
        )
    }

    /// Decides what is done with a confirmed offer, and assesses its gate for
    /// that. Gives an error where the limits on risk or the circuit breakers
    /// refuse it, and [`StrategyError::OutOfRange`] where a number leaves the
    /// range of decimals. A signal that goes out is for an offer that was
    /// confirmed on fetched books and locks a profit.
    pub fn decide(
        &mut self,
        config: &RuntimeConfig,
        observe_only: bool,
        observed: &Observed,
    ) -> (r: Result<Next, StrategyError>)
        ensures
            r matches Ok(Next::Submit(signal)) ==> {
                &&& observed.origin().confirms(
                    observed.offer(),
                    observed.book_a(),
                    observed.book_b(),
                )
                &&& signal@ == signal_for(
                    *config,
                    observed.origin().market,
                    observed.offer(),
                    observed.book_a().updated_at_ms,
                    observed.book_b().updated_at_ms,
                    observed.origin().now_ms,
                )
            },
            ({
                let opportunity = observed.offer();
                let market = observed.origin().market;
                let now_ms = observed.origin().now_ms;
                let key = GateKey {
                    direction: opportunity.direction,
                    bucket: observed.origin().candidate.bucket,
                };
                let status = old(self).assessment(*config, key, now_ms);
                let risk = risk_verdict(
                    old(self).daily_loss_halted,
                    old(self).submitted.pairs(),
                    market,
                    opportunity,
                    config.risk,
                    config.reserves,
                );
                let start = start_verdict(
                    old(self).circuits.orphaned(),
                    old(self).circuits.active(opportunity.direction),
                    old(self).circuits.signals(),
                    market.market_id,
                    now_ms,
                    config.risk.signals_per_minute,
                );
                let step = step_for(
                    status->0.unlocked,
                    observe_only,
                    old(self).blocked_markets@.contains(market.market_id),
                    risk,
                    start,
                );
                if status is None {
                    &&& r matches Err(StrategyError::OutOfRange)
                    &&& *final(self) == *old(self)
                } else {
                    &&& final(self).gates.gate(key).status matches Some(s) && Some(s@) == status
                    &&& final(self).gates.gate(key).samples == old(self).gates.gate(key).samples
                    &&& final(self).gates.gate(key).episodes == old(self).gates.gate(key).episodes
                    &&& final(self).gates.differs_only_at(old(self).gates, key)
                    &&& forall|direction: Direction| #[trigger]
                        final(self).circuits.active(direction) == old(self).circuits.active(
                            direction,
                        )
                    &&& final(self).circuits.orphaned() == old(self).circuits.orphaned()
                    &&& final(self).circuits.signals() == signals_after(
                        old(self).circuits.signals(),
                        step,
                        risk,
                        now_ms,
                    )
                    &&& is_next(
                        r,
                        step,
                        signal_for(
                            *config,
                            market,
                            opportunity,
                            observed.book_a().updated_at_ms,
                            observed.book_b().updated_at_ms,
                            now_ms,
                        ),
                    )
                }
            }),
            final(self).episodes == old(self).episodes,
            final(self).submitted == old(self).submitted,
            final(self).blocked_markets == old(self).blocked_markets,
            final(self).daily_loss_halted == old(self).daily_loss_halted,
            final(self).market_info == old(self).market_info,
            final(self).rejection_heartbeats == old(self).rejection_heartbeats,
            final(self).cycle_decisions_written == old(self).cycle_decisions_written,
    {
        proof {
            use_type_invariant(observed);
        }
        let market = observed.market;
        let opportunity = &observed.opportunity;
        let now_ms: i64 = observed.now_ms;
        let bucket = observed.bucket;
        let key = GateKey { direction: opportunity.direction, bucket };
        let assessment = self.gates.try_evaluate(
            key,
            now_ms,
            config.calibration.minimum_age_hours,
            config.calibration.minimum_cycles,
            config.calibration.minimum_coverage,
        );
        let status = match assessment {
            Some(status) => status,
            None => return Err(StrategyError::OutOfRange),
        };
        if !status.unlocked {
            return Ok(Next::Hold("calibration_gate_locked"));
        }
        if observe_only {
            return Ok(Next::Hold("forced_observe_only"));
        }
        if self.blocked_markets.contains(market.market_id.as_str()) {
            return Ok(Next::Hold("market_close_recovery_blocked"));
        }
        match self.checked_risk(config, market, opportunity) {
            Some(Ok(_)) => {},
            Some(Err(e)) => return Err(e),
            None => return Err(StrategyError::OutOfRange),
        }
        match self.circuits.can_start(
            market.market_id.as_str(),
            opportunity.direction,
            now_ms,
            config.risk.signals_per_minute,
        ) {
            Ok(_) => {},
            Err(e) => return Err(e),
        }
        let id = stable_signal_id(market, opportunity, observed.rest_a, observed.rest_b);
        Ok(
            Next::Submit(
                request(
                    id,
                    config.link.strategy_id.as_str(),
                    config.link.source.as_str(),
                    market,
                    opportunity,
                    observed.rest_a.updated_at_ms,
                    observed.rest_b.updated_at_ms,
                    now_ms,
                    config.recovery.enabled,
                    config.recovery.close_lead_ms,
                    config.risk.max_orphan_loss,
                ),
            ),
        )
    }

    /// Takes in what became of a signal: one that was accepted, or that the
    /// engine already had, starts a cycle. Gives whether it was submitted, and
    /// the reason to record.
    pub fn record_outcome(
        &mut self,
        signal: String,
        market: &BinaryCryptoMarket,
        opportunity: &Opportunity,
        outcome: SubmitOutcome,
        now_ms: i64,
    ) -> (r: (bool, String))
        ensures
            match outcome@ {
                SubmitOutcomeView::Rejected(reason) | SubmitOutcomeView::Retriable(reason) => {
                    &&& !r.0
                    &&& r.1@ == reason
                    &&& *final(self) == *old(self)
                },
                _ => {
                    &&& r.0
                    &&& r.1@ == "submitted"@
                    &&& submission_map(final(self).submitted@) == submission_map(
                        old(self).submitted@,
                    ).insert(
                        signal@,
                        (SubmissionView {
                            market_id: market.market_id@,
                            direction: opportunity.direction,
                            capital: opportunity.capital,
                            underlying: market.underlying@,
                        }),
                    )
                    &&& final(self).circuits.active(opportunity.direction) == old(
                        self,
                    ).circuits.active(opportunity.direction).insert(market.market_id@)
                    &&& forall|other: Direction|
                        other != opportunity.direction ==> #[trigger] final(self).circuits.active(
                            other,
                        ) == old(self).circuits.active(other)
                    &&& final(self).circuits.signals() == old(self).circuits.signals().push(now_ms)
                    &&& final(self).circuits.orphaned() == old(self).circuits.orphaned()
                },
            },
            final(self).gates == old(self).gates,
            final(self).episodes == old(self).episodes,
            final(self).blocked_markets == old(self).blocked_markets,
            final(self).daily_loss_halted == old(self).daily_loss_halted,
            final(self).market_info == old(self).market_info,
            final(self).rejection_heartbeats == old(self).rejection_heartbeats,
            final(self).cycle_decisions_written == old(self).cycle_decisions_written,
    {
        match outcome {
            SubmitOutcome::Rejected(reason) => {
                return (false, reason);
            },
            SubmitOutcome::Retriable(reason) => {
                return (false, reason);
            },
            SubmitOutcome::Accepted => {},
            SubmitOutcome::Duplicate => {},
        }
        self.circuits.started(market.market_id.clone(), opportunity.direction, now_ms);
        let submission = Submission {
            market_id: market.market_id.clone(),
            direction: opportunity.direction,
            capital: opportunity.capital,
            underlying: market.underlying.clone(),
        };
        let ghost before = self.submitted@;
        self.submitted.insert(signal, submission);
        proof {
            assert(submission_map(self.submitted@) =~= submission_map(before).insert(
                signal@,
                submission@,
            ));
        }
        (true, "submitted".to_owned())
    }

    /// Takes in that a market could not be evaluated: its episodes end, and the
    /// gates of its remaining duration lock. Gives the reason to record.
    pub fn fail_market(&mut self, market: &BinaryCryptoMarket, now_ms: i64, message: &str) -> (r:
        String)
        ensures
            r@ == "rejected:"@ + message@,
            forall|direction: Direction| #[trigger]
                final(self).episodes.active(direction) == old(self).episodes.active(
                    direction,
                ).remove(market.market_id@),
            final(self).episodes.count() == old(self).episodes.count(),
            forall|key: GateKey|
                if bucket_of(clamped_difference(market.end_time_ms, now_ms)) == Some(key.bucket) {
                    &&& final(self).gates.gate(key).status matches Some(s) && s@ == locked(
                        old(self).gates.gate(key).status_or_initial(),
                        "invalid_data"@,
                    )
                    &&& final(self).gates.gate(key).samples == old(self).gates.gate(key).samples
                    &&& final(self).gates.gate(key).episodes == old(self).gates.gate(key).episodes
                } else {
                    #[trigger] final(self).gates.gate(key) == old(self).gates.gate(key)
                },
            final(self).circuits == old(self).circuits,
            final(self).submitted == old(self).submitted,
            final(self).blocked_markets == old(self).blocked_markets,
            final(self).daily_loss_halted == old(self).daily_loss_halted,
            final(self).market_info == old(self).market_info,
            final(self).rejection_heartbeats == old(self).rejection_heartbeats,
            final(self).cycle_decisions_written == old(self).cycle_decisions_written,
    {
        self.episodes.close_market(market.market_id.as_str());
        let remaining: i64 = saturating_difference(market.end_time_ms, now_ms);
        if let Some(bucket) = DurationBucket::from_remaining_ms(remaining) {
            self.gates.relock(GateKey { direction: Direction::BuyMerge, bucket }, "invalid_data");
            self.gates.relock(GateKey { direction: Direction::SplitSell, bucket }, "invalid_data");
        }
        let mut reason = "rejected:".to_owned();
        reason.append(message);
        reason
    }
}

// ---------------------------------------------------------------------------
// Recording decisions
// ---------------------------------------------------------------------------

/// Whether a decision may go unrecorded when it repeats: nothing was offered,
/// nothing was submitted, and nothing went wrong.
pub open spec fn is_routine(has_opportunity: bool, submitted: bool, reason: Seq<char>) -> bool {
    &&& !has_opportunity
    &&& !submitted
    &&& reason == "no_profitable_depth"@ || reason == "outside_price_band"@ || reason
        == "market_not_subscribable"@
}

/// Offers, submissions and errors are recorded every time: none of them is
/// routine.
pub proof fn law_offers_submissions_and_errors_are_always_recorded(
    has_opportunity: bool,
    submitted: bool,
    reason: Seq<char>,
    message: Seq<char>,
)
    ensures
        !is_routine(true, submitted, reason),
        !is_routine(has_opportunity, true, reason),
        !is_routine(has_opportunity, submitted, "rejected:"@ + message),
{
    reveal_strlit("rejected:");
    reveal_strlit("no_profitable_depth");
    reveal_strlit("outside_price_band");
    reveal_strlit("market_not_subscribable");
    assert(("rejected:"@ + message)[0] == 'r');
}

/// Whether an offer has an unlocked gate.
pub open spec fn is_gate_unlocked(
    gates: GateState,
    opportunity: Option<Opportunity>,
    end_time_ms: i64,
    observed_at_ms: i64,
) -> bool {
    opportunity matches Some(o) && bucket_of(clamped_difference(end_time_ms, observed_at_ms)) matches Some(
        bucket,
    ) && gates.gate(GateKey { direction: o.direction, bucket }).status matches Some(status)
        && status.unlocked
}

/// An opportunity that may be missing.
pub open spec fn opportunity_in(opportunity: Option<&Opportunity>) -> Option<Opportunity> {
    match opportunity {
        Some(o) => Some(*o),
        None => None,
    }
}

/// Whether a decision says what was decided about a market.
pub open spec fn is_decision_on(
    decision: Decision,
    gates: GateState,
    market: MarketView,
    opportunity: Option<Opportunity>,
    submitted: bool,
    reason: Seq<char>,
    coverage_a: Option<bool>,
    coverage_b: Option<bool>,
    observed_at_ms: i64,
) -> bool {
    &&& decision.observed_at_ms == observed_at_ms
    &&& decision.market_id@ == market.market_id
    &&& decision.condition_id matches Some(id) && id@ == market.condition_id
    &&& decision.token_id_a matches Some(id) && id@ == market.token_a
    &&& decision.token_id_b matches Some(id) && id@ == market.token_b
    &&& decision.direction == match opportunity {
        Some(o) => Some(o.direction),
        None => None,
    }
    &&& decision.quantity == match opportunity {
        Some(o) => Some(o.quantity),
        None => None,
    }
    &&& decision.expected_profit == match opportunity {
        Some(o) => Some(o.net_profit),
        None => None,
    }
    &&& decision.gate_unlocked == is_gate_unlocked(
        gates,
        opportunity,
        market.end_time_ms,
        observed_at_ms,
    )
    &&& decision.submitted == submitted
    &&& decision.reason@ == reason
    &&& decision.store_coverage_a == coverage_a
    &&& decision.store_coverage_b == coverage_b
}

impl StrategyState {
    fn has_unlocked_gate(
        &self,
        opportunity: Option<&Opportunity>,
        end_time_ms: i64,
        observed_at_ms: i64,
    ) -> (r: bool)
        ensures
            r == is_gate_unlocked(
                self.gates,
                opportunity_in(opportunity),
                end_time_ms,
                observed_at_ms,
            ),
    {
        let direction = match opportunity {
            Some(o) => o.direction,
            None => return false,
        };
        let remaining: i64 = saturating_difference(end_time_ms, observed_at_ms);
        match DurationBucket::from_remaining_ms(remaining) {
            Some(bucket) => match self.gates.status(GateKey { direction, bucket }) {
                Some(status) => status.unlocked,
                None => false,
            },
            None => false,
        }
    }

    /// The decision to record about a market; `None` where it repeats a routine
    /// one within the heartbeat.
    pub fn log_decision(
        &mut self,
        market: &BinaryCryptoMarket,
        opportunity: Option<&Opportunity>,
        submitted: bool,
        reason: &str,
        coverage_a: Option<bool>,
        coverage_b: Option<bool>,
        observed_at_ms: i64,
    ) -> (r: Option<Decision>)
        ensures
            ({
                let heartbeats = heartbeat_map(old(self).rejection_heartbeats@);
                let routine = is_routine(opportunity is Some, submitted, reason@);
                let repeated = routine && is_repeat(
                    heartbeats,
                    market.market_id@,
                    reason@,
                    observed_at_ms,
                );
                &&& r is None <==> repeated
                &&& r matches Some(decision) ==> is_decision_on(
                    decision,
                    old(self).gates,
                    market@,
                    opportunity_in(opportunity),
                    submitted,
                    reason@,
                    coverage_a,
                    coverage_b,
                    observed_at_ms,
                )
                &&& heartbeat_map(final(self).rejection_heartbeats@) == if routine && !repeated {
                    heartbeats.insert(market.market_id@, (reason@, observed_at_ms))
                } else {
                    heartbeats
                }
            }),
            final(self).gates == old(self).gates,
            final(self).circuits == old(self).circuits,
            final(self).episodes == old(self).episodes,
            final(self).submitted == old(self).submitted,
            final(self).blocked_markets == old(self).blocked_markets,
            final(self).daily_loss_halted == old(self).daily_loss_halted,
            final(self).market_info == old(self).market_info,
            final(self).cycle_decisions_written == old(self).cycle_decisions_written,
    {
        let routine = opportunity.is_none() && !submitted && is_any_of(
            reason,
            "no_profitable_depth",
            "outside_price_band",
            "market_not_subscribable",
        );
        if routine && !should_log_rejection(
            &mut self.rejection_heartbeats,
            market.market_id.as_str(),
            reason,
            observed_at_ms,
        ) {
            return None;
        }
        let gate_unlocked = self.has_unlocked_gate(
            opportunity,
            market.end_time_ms,
            observed_at_ms,
        );
        let (direction, quantity, expected_profit) = match opportunity {
            Some(o) => (Some(o.direction), Some(o.quantity), Some(o.net_profit)),
            None => (None, None, None),
        };
        Some(
            Decision {
                observed_at_ms,
                market_id: market.market_id.clone(),
                condition_id: Some(market.condition_id.clone()),
                token_id_a: Some(market.outcomes[0].token_id.clone()),
                token_id_b: Some(market.outcomes[1].token_id.clone()),
                direction,
                quantity,
                expected_profit,
                gate_unlocked,
                submitted,
                reason: reason.to_owned(),
                store_coverage_a: coverage_a,
                store_coverage_b: coverage_b,
            },
        )
    }

    /// Counts a recorded decision.
    pub fn decision_written(&mut self)
        ensures
            *final(self) == (StrategyState {
                cycle_decisions_written: next_sequence(old(self).cycle_decisions_written),
                ..*old(self)
            }),
    {
        if self.cycle_decisions_written < u64::MAX {
            self.cycle_decisions_written = self.cycle_decisions_written + 1;
        }
    }
}

// ---------------------------------------------------------------------------
// Cycles
// ---------------------------------------------------------------------------

/// The tokens of the markets to follow, in order.
pub open spec fn targets_in(
    markets: Seq<BinaryCryptoMarket>,
    now_ms: i64,
    max_horizon_ms: u64,
) -> Seq<Seq<char>>
    decreases markets.len(),
{
    if markets.len() == 0 {
        Seq::empty()
    } else {
        let before = targets_in(markets.drop_last(), now_ms, max_horizon_ms);
        let market = markets.last()@;
        if is_subscribable(market, now_ms, max_horizon_ms) {
            before.push(market.token_a).push(market.token_b)
        } else {
            before
        }
    }
}

/// The condition identifiers of markets.
pub open spec fn conditions_in(markets: Seq<BinaryCryptoMarket>) -> Set<Seq<char>>
    decreases markets.len(),
{
    if markets.len() == 0 {
        Set::empty()
    } else {
        conditions_in(markets.drop_last()).insert(markets.last().condition_id@)
    }
}

/// The identifiers of markets.
pub open spec fn ids_in(markets: Seq<BinaryCryptoMarket>) -> Set<Seq<char>>
    decreases markets.len(),
{
    if markets.len() == 0 {
        Set::empty()
    } else {
        ids_in(markets.drop_last()).insert(markets.last().market_id@)
    }
}

/// What a cycle starts with.
#[derive(Debug)]
pub struct CyclePlan {
    pub targets: Vec<String>,
    pub subscribable: usize,
}

impl StrategyState {
    /// Starts a cycle on the discovered markets: forgets what it knows of
    /// others, and says which tokens to follow.
    pub fn begin_cycle(
        &mut self,
        markets: &Vec<BinaryCryptoMarket>,
        now_ms: i64,
        max_horizon_ms: u64,
    ) -> (r: CyclePlan)
        ensures
            crate::collections::text_seq(r.targets@) == targets_in(
                markets@,
                now_ms,
                max_horizon_ms,
            ),
            2 * r.subscribable == r.targets@.len(),
            final(self).market_info@ == old(self).market_info@.restrict(conditions_in(markets@)),
            final(self).rejection_heartbeats@ == old(self).rejection_heartbeats@.restrict(
                ids_in(markets@),
            ),
            final(self).cycle_decisions_written == 0,
            final(self).gates == old(self).gates,
            final(self).circuits == old(self).circuits,
            final(self).episodes == old(self).episodes,
            final(self).submitted == old(self).submitted,
            final(self).blocked_markets == old(self).blocked_markets,
            final(self).daily_loss_halted == old(self).daily_loss_halted,
    {
        let mut conditions = StringSet::new();
        let mut ids = StringSet::new();
        let mut targets: Vec<String> = Vec::new();
        let mut subscribable: usize = 0;
        let mut i: usize = 0;
        assert(crate::collections::text_seq(targets@) =~= Seq::<Seq<char>>::empty());
        while i < markets.len()
            invariant
                i <= markets@.len(),
                conditions@ == conditions_in(markets@.take(i as int)),
                ids@ == ids_in(markets@.take(i as int)),
                crate::collections::text_seq(targets@) == targets_in(
                    markets@.take(i as int),
                    now_ms,
                    max_horizon_ms,
                ),
                subscribable <= i,
                2 * subscribable == targets@.len(),
            decreases markets@.len() - i,
        {
            let market = &markets[i];
            assert(markets@.take(i + 1).drop_last() =~= markets@.take(i as int));
            conditions.insert(market.condition_id.clone());
            ids.insert(market.market_id.clone());
            if market.subscribable(now_ms, max_horizon_ms) {
                let ghost before = targets@;
                targets.push(market.outcomes[0].token_id.clone());
                targets.push(market.outcomes[1].token_id.clone());
                subscribable += 1;
                assert(crate::collections::text_seq(targets@) =~= crate::collections::text_seq(
                    before,
                ).push(market@.token_a).push(market@.token_b));
            }
            i += 1;
        }
        assert(markets@.take(i as int) =~= markets@);
        self.market_info.retain(&conditions);
        self.rejection_heartbeats.retain(&ids);
        self.cycle_decisions_written = 0;
        CyclePlan { targets, subscribable }
    }

    /// How many gates are unlocked.
    pub fn unlocked_gates(&self) -> (r: usize)
        ensures
            r == unlocked_count(self.gates, 8),
    {
        let keys = crate::gate::all_keys();
        let mut count: usize = 0;
        let mut i: usize = 0;
        while i < keys.len()
            invariant
                i <= 8,
                keys@ == Seq::new(8, |i: int| crate::gate::key_at(i)),
                count <= i,
                count == unlocked_count(self.gates, i as int),
            decreases 8 - i,
        {
            match self.gates.status(keys[i]) {
                Some(status) => {
                    if status.unlocked {
                        count += 1;
                    }
                },
                None => {},
            }
            i += 1;
        }
        count
    }
}

/// How many of the first gates are unlocked.
pub open spec fn unlocked_count(gates: GateState, count: int) -> nat
    decreases count,
{
    if count <= 0 {
        0
    } else {
        unlocked_count(gates, count - 1) + match gates.gate(crate::gate::key_at(count - 1)).status {
            Some(status) => if status.unlocked {
                1nat
            } else {
                0
            },
            None => 0nat,
        }
    }
}

/// What a cycle does about a market.
#[derive(Clone, Copy, Debug, PartialEq, Eq)]
pub enum MarketStep {
    /// Nothing: another market was asked for.
    Skip,
    /// Records that its books are not followed.
    NotSubscribable,
    /// Evaluates it.
    Evaluate,
}

/// What a cycle does about a market, where one may have been asked for.
pub fn market_step(
    market: &BinaryCryptoMarket,
    filter: Option<&str>,
    now_ms: i64,
    max_horizon_ms: u64,
) -> (r: MarketStep)
    ensures
        r == (if filter matches Some(id) && id@ != market.market_id@ {
            MarketStep::Skip
        } else if is_subscribable(market@, now_ms, max_horizon_ms) {
            MarketStep::Evaluate
        } else {
            MarketStep::NotSubscribable
        }),
{
    let wanted = match filter {
        Some(id) => same_text(id, market.market_id.as_str()),
        None => true,
    };
    if !wanted {
        MarketStep::Skip
    } else if market.subscribable(now_ms, max_horizon_ms) {
        MarketStep::Evaluate
    } else {
        MarketStep::NotSubscribable
    }
}

// ---------------------------------------------------------------------------
// Laws of the steps
// ---------------------------------------------------------------------------

/// A market is blocked exactly when one of its reported executions is recovering or
/// unknown, has a halted recovery, or has a close recovery that is running, unknown
/// or held to resolution.
pub proof fn law_blocked_markets_have_a_troubled_execution(
    executions: Seq<CompleteSetExecution>,
    market: Seq<char>,
)
    ensures
        blocked_in(executions).contains(market) <==> exists|i: int|
            0 <= i < executions.len() && (#[trigger] executions[i]).market_id@ == market && {
                ||| executions[i].state@ == "recovering"@
                ||| executions[i].state@ == "unknown"@
                ||| executions[i].recovery_action@ == "halted"@
                ||| executions[i].close_recovery_state@ == "running"@
                ||| executions[i].close_recovery_state@ == "unknown"@
                ||| executions[i].close_recovery_state@ == "held_to_resolution"@
            },
    decreases executions.len(),
{
    if executions.len() > 0 {
        let before = executions.drop_last();
        law_blocked_markets_have_a_troubled_execution(before, market);
        assert(executions[executions.len() - 1] == executions.last());
        assert(forall|i: int| 0 <= i < before.len() ==> #[trigger] before[i] == executions[i]);
        assert(forall|i: int| 0 <= i < before.len() ==> before[i] == #[trigger] executions[i]);
    }
}

/// Whether the profit of an execution counts for the day: it was completed since
/// the start, and its profit can be read.
pub open spec fn counts_for_the_day(day_start_ms: int) -> spec_fn(CompleteSetExecution) -> bool {
    |e: CompleteSetExecution|
        e.completed_at_ms >= day_start_ms && parsed_decimal(e.realized_profit@) is Some
}

/// The profit of a day is the sum of the readable profits of the executions that
/// were completed since its start, in the order of the reports.
pub proof fn law_profit_of_the_day(executions: Seq<CompleteSetExecution>, day_start_ms: int)
    ensures
        daily_profit(executions, day_start_ms) == total(
            executions.filter(counts_for_the_day(day_start_ms)).map_values(
                |e: CompleteSetExecution| parsed_decimal(e.realized_profit@)->0,
            ),
        ),
    decreases executions.len(),
{
    reveal(Seq::filter);
    let counts = counts_for_the_day(day_start_ms);
    let profit = |e: CompleteSetExecution| parsed_decimal(e.realized_profit@)->0;
    let all = executions.filter(counts).map_values(profit);
    if executions.len() > 0 {
        let before = executions.drop_last();
        law_profit_of_the_day(before, day_start_ms);
        let kept = before.filter(counts);
        if counts(executions.last()) {
            assert(executions.filter(counts) =~= kept.push(executions.last()));
            assert(all =~= kept.map_values(profit).push(profit(executions.last())));
            assert(all.drop_last() =~= kept.map_values(profit));
        } else {
            assert(executions.filter(counts) =~= kept);
        }
    } else {
        assert(all.len() == 0);
    }
}

/// The count of ended executions is that of the completed, failed and rejected
/// ones.
pub proof fn law_ended_executions_are_counted(executions: Seq<CompleteSetExecution>)
    ensures
        terminal_count(executions) == executions.filter(
            |e: CompleteSetExecution|
                e.state@ == "completed"@ || e.state@ == "failed"@ || e.state@ == "risk_rejected"@,
        ).len(),
    decreases executions.len(),
{
    reveal(Seq::filter);
    if executions.len() > 0 {
        law_ended_executions_are_counted(executions.drop_last());
    }
}

proof fn lemma_exposure(
    submissions: Seq<(Seq<char>, Submission)>,
    counts: spec_fn(SubmissionView) -> bool,
)
    ensures
        exposure(submissions, counts) == total(
            submissions.filter(|s: (Seq<char>, Submission)| counts(s.1@)).map_values(
                |s: (Seq<char>, Submission)| s.1.capital,
            ),
        ),
    decreases submissions.len(),
{
    reveal(Seq::filter);
    let keep = |s: (Seq<char>, Submission)| counts(s.1@);
    let capital = |s: (Seq<char>, Submission)| s.1.capital;
    let all = submissions.filter(keep).map_values(capital);
    if submissions.len() > 0 {
        let before = submissions.drop_last();
        lemma_exposure(before, counts);
        let kept = before.filter(keep);
        if keep(submissions.last()) {
            assert(submissions.filter(keep) =~= kept.push(submissions.last()));
            assert(all =~= kept.map_values(capital).push(capital(submissions.last())));
            assert(all.drop_last() =~= kept.map_values(capital));
        } else {
            assert(submissions.filter(keep) =~= kept);
        }
    } else {
        assert(all.len() == 0);
    }
}

/// The capital of the submissions that belong to a group, added up.
pub open spec fn capital_of(
    submissions: Seq<(Seq<char>, Submission)>,
    belongs: spec_fn((Seq<char>, Submission)) -> bool,
) -> Option<Decimal> {
    total(
        submissions.filter(belongs).map_values(|s: (Seq<char>, Submission)| s.1.capital),
    )
}

/// Whether capital stays within a limit together with what is at work already.
pub open spec fn stays_within(at_work: Option<Decimal>, capital: Decimal, limit: Decimal) -> bool {
    plus(at_work, Some(capital)) matches Some(whole) && !lt(limit, whole)
}

/// Whether capital goes over a limit together with what is at work already.
pub open spec fn breaks_limit(at_work: Option<Decimal>, capital: Decimal, limit: Decimal) -> bool {
    plus(at_work, Some(capital)) matches Some(whole) && lt(limit, whole)
}

/// Whether a verdict is that of the limits on risk, given the capital at work in the
/// market, on its underlying and in all.
pub open spec fn is_verdict_of_limits(
    verdict: Option<Result<(), StrategyError>>,
    daily_loss_halted: bool,
    in_market: Option<Decimal>,
    on_underlying: Option<Decimal>,
    in_all: Option<Decimal>,
    capital: Decimal,
    risk: RiskConfig,
    orphan_reserve: Decimal,
) -> bool {
    let admitted = {
        &&& !daily_loss_halted
        &&& !lt(risk.max_per_cycle, capital)
        &&& stays_within(in_market, capital, risk.max_per_market)
        &&& stays_within(on_underlying, capital, risk.max_per_underlying)
        &&& stays_within(in_all, capital, risk.max_aggregate)
        &&& !lt(risk.max_orphan_loss, orphan_reserve)
    };
    let broken = {
        ||| lt(risk.max_per_cycle, capital)
        ||| breaks_limit(in_market, capital, risk.max_per_market)
        ||| breaks_limit(on_underlying, capital, risk.max_per_underlying)
        ||| breaks_limit(in_all, capital, risk.max_aggregate)
        ||| lt(risk.max_orphan_loss, orphan_reserve)
    };
    match verdict {
        Some(Ok(_)) => admitted,
        Some(Err(StrategyError::DailyLossHalted)) => daily_loss_halted,
        Some(Err(e)) => e == StrategyError::RiskLimit && !daily_loss_halted && broken,
        None => !daily_loss_halted && !admitted,
    }
}

proof fn lemma_risk_verdict(
    daily_loss_halted: bool,
    submissions: Seq<(Seq<char>, Submission)>,
    market: MarketView,
    opportunity: Opportunity,
    risk: RiskConfig,
    reserves: ReserveConfig,
)
    ensures
        is_verdict_of_limits(
            risk_verdict(daily_loss_halted, submissions, market, opportunity, risk, reserves),
            daily_loss_halted,
            market_exposure(submissions, market),
            underlying_exposure(submissions, market),
            aggregate_exposure(submissions),
            opportunity.capital,
            risk,
            reserves.orphan,
        ),
{
}

proof fn lemma_exposures(submissions: Seq<(Seq<char>, Submission)>, market: MarketView)
    ensures
        market_exposure(submissions, market) == capital_of(
            submissions,
            |s: (Seq<char>, Submission)| s.1.market_id@ == market.market_id,
        ),
        underlying_exposure(submissions, market) == capital_of(
            submissions,
            |s: (Seq<char>, Submission)| s.1.underlying@ == market.underlying,
        ),
        aggregate_exposure(submissions) == capital_of(
            submissions,
            |s: (Seq<char>, Submission)| true,
        ),
{
    let of_market = |s: SubmissionView| s.market_id == market.market_id;
    let of_underlying = |s: SubmissionView| s.underlying == market.underlying;
    let of_all = |s: SubmissionView| true;
    lemma_exposure(submissions, of_market);
    lemma_exposure(submissions, of_underlying);
    lemma_exposure(submissions, of_all);
    assert((|s: (Seq<char>, Submission)| of_market(s.1@)) =~= (|s: (Seq<char>, Submission)|
        s.1.market_id@ == market.market_id));
    assert((|s: (Seq<char>, Submission)| of_underlying(s.1@)) =~= (|s: (Seq<char>, Submission)|
        s.1.underlying@ == market.underlying));
    assert((|s: (Seq<char>, Submission)| of_all(s.1@)) =~= (|s: (Seq<char>, Submission)| true));
}

/// An opportunity is admitted exactly when the day's loss does not halt the
/// strategy and its capital stays within every limit: on its own, together with the
/// capital of the submissions of its market, of those on its underlying and of all;
/// and an orphaned leg may cost what is reserved for one. Whatever it is refused for
/// is one of these.
pub proof fn law_risk_is_admitted_exactly_within_the_limits(
    daily_loss_halted: bool,
    submissions: Seq<(Seq<char>, Submission)>,
    market: MarketView,
    opportunity: Opportunity,
    risk: RiskConfig,
    reserves: ReserveConfig,
)
    ensures
        is_verdict_of_limits(
            risk_verdict(daily_loss_halted, submissions, market, opportunity, risk, reserves),
            daily_loss_halted,
            capital_of(
                submissions,
                |s: (Seq<char>, Submission)| s.1.market_id@ == market.market_id,
            ),
            capital_of(
                submissions,
                |s: (Seq<char>, Submission)| s.1.underlying@ == market.underlying,
            ),
            capital_of(submissions, |s: (Seq<char>, Submission)| true),
            opportunity.capital,
            risk,
            reserves.orphan,
        ),
{
    lemma_risk_verdict(daily_loss_halted, submissions, market, opportunity, risk, reserves);
    lemma_exposures(submissions, market);
}

/// What the streamed books offer is what one of the directions does, and the other
/// earns no more; the price band is to blame exactly when it is for both.
pub proof fn law_screening_picks_the_more_profitable_direction(
    bought: Result<Opportunity, Rejection>,
    sold: Result<Opportunity, Rejection>,
)
    ensures
        match preliminary_of(bought, sold) {
            Preliminary::Found(best) => {
                let found = Ok::<Opportunity, Rejection>(best);
                &&& bought == found || sold == found
                &&& bought matches Ok(o) ==> !lt(best.net_profit, o.net_profit)
                &&& sold matches Ok(o) ==> !lt(best.net_profit, o.net_profit)
                &&& bought matches Ok(a) ==> sold matches Ok(b) ==> same(
                    a.net_profit,
                    b.net_profit,
                ) ==> sold == found
            },
            Preliminary::OutsidePriceBand => {
                &&& bought == Err::<Opportunity, Rejection>(Rejection::OutsidePriceBand)
                &&& sold == Err::<Opportunity, Rejection>(Rejection::OutsidePriceBand)
            },
            Preliminary::NoProfitableDepth => {
                &&& bought is Err && sold is Err
                &&& bought == Err::<Opportunity, Rejection>(Rejection::NoProfitableDepth) || sold
                    == Err::<Opportunity, Rejection>(Rejection::NoProfitableDepth)
            },
        },
{
    match (bought, sold) {
        (Ok(a), Ok(b)) => {
            lemma_lt_asymmetric(a.net_profit, b.net_profit);
            lemma_lt_asymmetric(b.net_profit, b.net_profit);
        },
        (Ok(a), _) => lemma_lt_asymmetric(a.net_profit, a.net_profit),
        (_, Ok(b)) => lemma_lt_asymmetric(b.net_profit, b.net_profit),
        _ => {},
    }
}

/// Each direction is priced on the side that it trades against, asks to buy and
/// bids to sell, with the reserves of its own gate, and both are weighed.
pub proof fn law_both_directions_are_screened(
    config: RuntimeConfig,
    gates: GateState,
    bucket: DurationBucket,
    book_a: Book,
    book_b: Book,
    rate: Decimal,
    buying: ReserveConfig,
    selling: ReserveConfig,
    bought: Result<Opportunity, Rejection>,
    sold: Result<Opportunity, Rejection>,
)
    requires
        reserves_with(
            config.reserves,
            gate_status(gates, GateKey { direction: Direction::BuyMerge, bucket }),
        ) == Some(buying),
        reserves_with(
            config.reserves,
            gate_status(gates, GateKey { direction: Direction::SplitSell, bucket }),
        ) == Some(selling),
        best_found(
            book_a.asks@,
            book_b.asks@,
            rate,
            Direction::BuyMerge,
            config.profitability,
            buying,
            config.risk,
        ) == Some(bought),
        best_found(
            book_a.bids@,
            book_b.bids@,
            rate,
            Direction::SplitSell,
            config.profitability,
            selling,
            config.risk,
        ) == Some(sold),
    ensures
        preliminary_found(config, gates, bucket, book_a, book_b, rate) == Some(
            preliminary_of(bought, sold),
        ),
{
}

/// A market can be screened exactly when its info agrees with it, both tokens have a
/// streamed book, and it ends within a day; otherwise the first of these that fails
/// is the problem.
pub proof fn law_screening_problems(
    market: MarketView,
    info: MarketInfoView,
    books: Map<Seq<char>, Book>,
    now_ms: i64,
)
    ensures
        ({
            let remaining = market.end_time_ms - now_ms;
            let agrees = metadata_problem(market, info) is None;
            let has_a = books.contains_key(market.token_a);
            let has_b = books.contains_key(market.token_b);
            match screening_problem(market, info, books, now_ms) {
                None => agrees && has_a && has_b && 0 < remaining <= 24 * 60 * 60 * 1_000,
                Some(StrategyError::TokenABookMissing) => agrees ==> !has_a,
                Some(StrategyError::TokenBBookMissing) => agrees ==> has_a && !has_b,
                Some(StrategyError::DurationOutsideBuckets) => agrees ==> has_a && has_b && !(0
                    < remaining <= 24 * 60 * 60 * 1_000),
                Some(e) => metadata_problem(market, info) == Some(e),
            }
        }),
{
}

/// The book that is found for a token is the first of its token; none is found
/// exactly when there is none.
pub proof fn law_the_first_book_of_a_token_is_found(books: Seq<Book>, token: Seq<char>, from: int)
    requires
        0 <= from,
    ensures
        match book_position(books, token, from) {
            Some(at) => {
                &&& from <= at < books.len()
                &&& books[at].token_id@ == token
                &&& forall|i: int| from <= i < at ==> (#[trigger] books[i]).token_id@ != token
            },
            None => forall|i: int|
                from <= i < books.len() ==> (#[trigger] books[i]).token_id@ != token,
        },
    decreases books.len() - from,
{
    if from < books.len() && books[from].token_id@ != token {
        law_the_first_book_of_a_token_is_found(books, token, from + 1);
    }
}

/// An offer is confirmed on the first fetched books of both tokens: the cross-check
/// of the streamed and the fetched books passes for the quantity and the direction
/// of the candidate, and the same direction offers it on the fetched books. Otherwise
/// a book is missing, the cross-check says what is wrong, or the opportunity has
/// disappeared.
pub proof fn law_confirmations_are_of_the_fetched_books(
    config: RuntimeConfig,
    gates: GateState,
    market: MarketView,
    rate: Decimal,
    candidate: Candidate,
    books: Seq<Book>,
    round_trip_ms: u64,
    now_ms: i64,
)
    ensures
        ({
            let direction = candidate.opportunity.direction;
            let verdict = |a: int, b: int|
                final_books_verdict(
                    candidate.ws_a,
                    candidate.ws_b,
                    books[a],
                    books[b],
                    candidate.opportunity.quantity,
                    direction,
                    market.tick_size,
                    now_ms,
                    round_trip_ms,
                    config.quality,
                );
            let offer = |a: int, b: int|
                offered(config, gates, candidate.bucket, direction, books[a], books[b], rate);
            let a = book_position(books, market.token_a, 0);
            let b = book_position(books, market.token_b, 0);
            let found = confirmation(
                config,
                gates,
                market,
                rate,
                candidate,
                books,
                round_trip_ms,
                now_ms,
            );
            match found {
                Some(Ok((o, at_a, at_b))) => {
                    &&& a == Some(at_a) && b == Some(at_b)
                    &&& verdict(at_a, at_b) == Some(Ok::<(), StrategyError>(()))
                    &&& offer(at_a, at_b) == Some(Ok::<Opportunity, Rejection>(o))
                },
                Some(Err(StrategyError::TokenARestBookMissing)) => a is None,
                Some(Err(StrategyError::TokenBRestBookMissing)) => a is Some && b is None,
                Some(Err(StrategyError::OpportunityDisappeared)) => {
                    &&& a is Some && b is Some
                    &&& verdict(a->0, b->0) matches Some(Ok(_))
                    &&& offer(a->0, b->0) matches Some(Err(_))
                },
                Some(Err(e)) => a is Some && b is Some && verdict(a->0, b->0) == Some(
                    Err::<(), StrategyError>(e),
                ),
                None => a is Some && b is Some && (verdict(a->0, b->0) is None || offer(
                    a->0,
                    b->0,
                ) is None),
            }
        }),
{
    match (
        book_position(books, market.token_a, 0),
        book_position(books, market.token_b, 0),
    ) {
        (Some(a), Some(b)) => {
            law_cross_check_passes_when_the_books_agree(
                candidate.ws_a,
                candidate.ws_b,
                books[a],
                books[b],
                candidate.opportunity.quantity,
                candidate.opportunity.direction,
                market.tick_size,
                now_ms,
                round_trip_ms,
                config.quality,
            );
        },
        _ => {},
    }
}

/// An offer is sampled as a finished cycle with valid data and no orphan: with its
/// episode, when it was seen, what it earned and what it lost to slippage and
/// latency. An episode that is running keeps its identifier.
pub proof fn law_samples_say_what_was_observed(
    sample: CalibrationSample,
    running: Map<Seq<char>, Seq<char>>,
    count: u64,
    market_id: Seq<char>,
    direction: Direction,
    now_ms: i64,
    net_profit: Decimal,
    slippage: Decimal,
    latency_cost: Decimal,
)
    requires
        is_sample_of(
            sample,
            episode_of(running, count, market_id, direction),
            now_ms,
            net_profit,
            slippage,
            latency_cost,
        ),
    ensures
        running.contains_key(market_id) ==> sample.episode_id@ == running[market_id],
        !running.contains_key(market_id) && count < u64::MAX ==> sample.episode_id@
            == episode_text(market_id, direction, (count + 1) as u64),
        sample.terminal,
        sample.valid_data,
        !sample.unresolved_orphan,
        sample.observed_at_ms == now_ms,
        sample.net_profit == net_profit,
        sample.slippage == slippage,
        sample.latency_cost == latency_cost,
        sample.orphan_loss == zero(),
{
}

/// What is done next is a signal exactly when everything admits it. What holds it
/// back is the first of its gate, the observe-only mode, a blocked market, the limits
/// on risk and the circuit breakers; each is said by its own reason or error.
pub proof fn law_what_is_done_next(
    next: Result<Next, StrategyError>,
    unlocked: bool,
    observe_only: bool,
    blocked: bool,
    risk: Option<Result<(), StrategyError>>,
    start: Result<(), StrategyError>,
    signal: RequestView,
)
    requires
        is_next(next, step_for(unlocked, observe_only, blocked, risk, start), signal),
    ensures
        next matches Ok(Next::Submit(sent)) ==> sent@ == signal,
        next matches Ok(Next::Submit(_)) <==> unlocked && !observe_only && !blocked && (
        risk matches Some(Ok(_))) && start is Ok,
        next matches Ok(Next::Hold(_)) <==> !unlocked || observe_only || blocked,
        next matches Ok(Next::Hold(reason)) ==> reason@ == if !unlocked {
            "calibration_gate_locked"@
        } else if observe_only {
            "forced_observe_only"@
        } else {
            "market_close_recovery_blocked"@
        },
        unlocked && !observe_only && !blocked ==> (risk matches Some(Err(e)) ==> next matches Err(
            refused,
        ) && refused == e),
        unlocked && !observe_only && !blocked ==> (risk matches Some(Ok(_)) ==> (start matches Err(
            e,
        ) ==> next matches Err(refused) && refused == e)),
        unlocked && !observe_only && !blocked && risk is None ==> next matches Err(
            StrategyError::OutOfRange,
        ),
{
}

/// Signals are forgotten only when a decision gets as far as the circuit breakers.
pub proof fn law_signals_are_forgotten_when_a_start_is_considered(
    signals: Seq<i64>,
    unlocked: bool,
    observe_only: bool,
    blocked: bool,
    risk: Option<Result<(), StrategyError>>,
    start: Result<(), StrategyError>,
    now_ms: i64,
)
    ensures
        ({
            let after = signals_after(
                signals,
                step_for(unlocked, observe_only, blocked, risk, start),
                risk,
                now_ms,
            );
            if unlocked && !observe_only && !blocked && (risk matches Some(Ok(_))) {
                after == unexpired(signals, now_ms)
            } else {
                after == signals
            }
        }),
{
}

/// A candidate is observed exactly when its market info agrees, the fetched books
/// confirm it, and its slippage is a decimal.
pub proof fn law_what_keeps_a_candidate_from_being_observed(
    metadata: Option<StrategyError>,
    confirmed: Option<Result<(Opportunity, int, int), StrategyError>>,
    preliminary: Opportunity,
)
    ensures
        ({
            let problem = observation_problem(metadata, confirmed, preliminary);
            &&& problem is None <==> metadata is None && (confirmed matches Some(Ok((o, _, _)))
                && difference(preliminary.net_profit, o.net_profit) is Some)
            &&& metadata is Some ==> problem == metadata
            &&& metadata is None ==> (confirmed matches Some(Err(e)) ==> problem == Some(e))
            &&& metadata is None && !(confirmed matches Some(Err(_))) && problem is Some ==> problem
                == Some(StrategyError::OutOfRange)
        }),
{
}

/// A decision is routine exactly when nothing was offered or submitted, for want of
/// profitable depth, for the price band, or because the market is not followed.
pub proof fn law_routine_decisions(has_opportunity: bool, submitted: bool, reason: Seq<char>)
    ensures
        !is_routine(has_opportunity, submitted, reason) <==> {
            ||| has_opportunity
            ||| submitted
            ||| reason != "no_profitable_depth"@ && reason != "outside_price_band"@ && reason
                != "market_not_subscribable"@
        },
{
}

/// An offer has an unlocked gate exactly when that of its direction and of what
/// remains of its market is.
pub proof fn law_the_gate_of_an_offer(
    gates: GateState,
    opportunity: Opportunity,
    bucket: DurationBucket,
    end_time_ms: i64,
    observed_at_ms: i64,
)
    requires
        bucket_of(end_time_ms - observed_at_ms) == Some(bucket),
    ensures
        !is_gate_unlocked(gates, None, end_time_ms, observed_at_ms),
        is_gate_unlocked(gates, Some(opportunity), end_time_ms, observed_at_ms) <==> (
        gates.gate(
            GateKey { direction: opportunity.direction, bucket },
        ).status matches Some(status) && status.unlocked),
{
}

/// Whether a market is followed: it is active and takes orders, has started where
/// its start is known, and ends after now.
pub open spec fn is_running_now(market: MarketView, now_ms: i64) -> bool {
    &&& market.active && market.accepting_orders
    &&& market.start_time_ms is Some ==> market.start_time_ms->0 <= now_ms
    &&& now_ms < market.end_time_ms
}

/// The tokens to follow are those of the markets that are running and end within
/// the horizon, both of each, in the order of the markets.
pub proof fn law_the_tokens_to_follow(
    markets: Seq<BinaryCryptoMarket>,
    market: BinaryCryptoMarket,
    now_ms: i64,
    max_horizon_ms: u64,
)
    requires
        max_horizon_ms <= i64::MAX,
    ensures
        targets_in(Seq::empty(), now_ms, max_horizon_ms).len() == 0,
        targets_in(markets.push(market), now_ms, max_horizon_ms) == targets_in(
            markets,
            now_ms,
            max_horizon_ms,
        ) + if is_running_now(market@, now_ms) && (market.end_time_ms - now_ms <= max_horizon_ms
            || max_horizon_ms == i64::MAX) {
            seq![market@.token_a, market@.token_b]
        } else {
            seq![]
        },
{
    assert(markets.push(market).drop_last() =~= markets);
    assert(targets_in(markets.push(market), now_ms, max_horizon_ms) =~= targets_in(
        markets,
        now_ms,
        max_horizon_ms,
    ) + if is_running_now(market@, now_ms) && (market.end_time_ms - now_ms <= max_horizon_ms
        || max_horizon_ms == i64::MAX) {
        seq![market@.token_a, market@.token_b]
    } else {
        seq![]
    });
}

/// What is known is kept for exactly the conditions and the markets that were
/// discovered.
pub proof fn law_what_was_discovered(markets: Seq<BinaryCryptoMarket>, id: Seq<char>)
    ensures
        conditions_in(markets).contains(id) <==> exists|i: int|
            0 <= i < markets.len() && (#[trigger] markets[i]).condition_id@ == id,
        ids_in(markets).contains(id) <==> exists|i: int|
            0 <= i < markets.len() && (#[trigger] markets[i]).market_id@ == id,
    decreases markets.len(),
{
    if markets.len() > 0 {
        let before = markets.drop_last();
        law_what_was_discovered(before, id);
        assert(markets[markets.len() - 1] == markets.last());
        assert(forall|i: int| 0 <= i < before.len() ==> #[trigger] before[i] == markets[i]);
        assert(forall|i: int| 0 <= i < before.len() ==> before[i] == #[trigger] markets[i]);
    }
}

/// The count of unlocked gates grows by one with every gate that is unlocked.
pub proof fn law_unlocked_gates_are_counted(gates: GateState, n: int)
    requires
        0 <= n < 8,
    ensures
        unlocked_count(gates, 0) == 0,
        unlocked_count(gates, n + 1) - unlocked_count(gates, n) == if gates.gate(
            crate::gate::key_at(n),
        ).status matches Some(status) && status.unlocked {
            1int
        } else {
            0
        },
{
}

/// A decision names its market and both tokens, and says what was offered, where
/// something was, whether it went out, and why.
pub proof fn law_what_a_decision_says(
    decision: Decision,
    gates: GateState,
    market: MarketView,
    opportunity: Option<Opportunity>,
    submitted: bool,
    reason: Seq<char>,
    coverage_a: Option<bool>,
    coverage_b: Option<bool>,
    observed_at_ms: i64,
)
    requires
        is_decision_on(
            decision,
            gates,
            market,
            opportunity,
            submitted,
            reason,
            coverage_a,
            coverage_b,
            observed_at_ms,
        ),
    ensures
        decision.market_id@ == market.market_id,
        decision.condition_id is Some && decision.condition_id->0@ == market.condition_id,
        decision.token_id_a is Some && decision.token_id_a->0@ == market.token_a,
        decision.token_id_b is Some && decision.token_id_b->0@ == market.token_b,
        opportunity is None ==> decision.direction is None && decision.quantity is None
            && decision.expected_profit is None && !decision.gate_unlocked,
        opportunity matches Some(o) ==> decision.direction == Some(o.direction)
            && decision.quantity == Some(o.quantity) && decision.expected_profit == Some(
            o.net_profit,
        ),
        decision.submitted == submitted,
        decision.reason@ == reason,
        decision.observed_at_ms == observed_at_ms,
        decision.store_coverage_a == coverage_a,
        decision.store_coverage_b == coverage_b,
{
}

/// The signal that goes out is for the confirmed offer in its market: it bears the
/// identifier of the two, the account and the recovery policy of the configuration,
/// and the times of the fetched books.
pub proof fn law_what_goes_out(
    config: RuntimeConfig,
    market: MarketView,
    o: Opportunity,
    a_ms: i64,
    b_ms: i64,
    now_ms: i64,
)
    ensures
        ({
            let signal = signal_for(config, market, o, a_ms, b_ms, now_ms);
            &&& signal.signal_id == signal_id(market.market_id, o, a_ms, b_ms)
            &&& signal.strategy_id == config.link.strategy_id@
            &&& signal.source == config.link.source@
            &&& signal.market_id == market.market_id
            &&& signal.token_a_id == market.token_a
            &&& signal.token_b_id == market.token_b
            &&& signal.direction == o.direction
            &&& signal.token_a_book_observed_at_ms == a_ms
            &&& signal.token_b_book_observed_at_ms == b_ms
            &&& signal.observed_at_ms == now_ms
            &&& signal.close_recovery is Some <==> config.recovery.enabled
            &&& signal.close_recovery matches Some(policy) ==> policy == (
                config.recovery.close_lead_ms,
                crate::decimal::decimal_text(config.risk.max_orphan_loss),
            )
        }),
{
}

} // verus!
