//! What the command line asks for.

use crate::config::DEFAULT_CONFIG_PATH;
use crate::error::StrategyError;
use crate::gamma::is_subscribable;
use crate::gamma::BinaryCryptoMarket;
use crate::text::is_either;
use crate::text::same_text;
use vstd::prelude::*;

verus! {

/// How the program is called.
pub const USAGE: &'static str =
    "usage: moni-strategy-beta <serve|--discover-only|calibration-summary|store-calibration-summary|execution-summary|manual-signal MARKET_ID> [--config PATH] [--dry-run] [--confirm MANUAL_DIAGNOSTIC_ONLY]";

/// What a manual signal has to be confirmed with.
pub const CONFIRMATION: &'static str = "MANUAL_DIAGNOSTIC_ONLY";

/// What the program is to do.
#[derive(Clone, Copy, Debug, PartialEq, Eq)]
pub enum Command {
    /// Run until stopped; without submitting anything where it only observes.
    Serve { observe_only: bool },
    /// List the markets that count.
    DiscoverOnly,
    /// Show every gate.
    CalibrationSummary,
    /// Count the executions.
    ExecutionSummary,
    /// Show how snapshots cover the decisions.
    StoreCalibrationSummary,
    /// Try one market once.
    ManualSignal,
    /// Show how the program is called.
    Help,
}

/// The argument behind the first one from the `i`-th on that equals `name`.
pub open spec fn value_after(args: Seq<String>, name: Seq<char>, i: int) -> Option<Seq<char>>
    decreases args.len() - i,
{
    if i < 0 || i + 1 >= args.len() {
        None
    } else if args[i]@ == name {
        Some(args[i + 1]@)
    } else {
        value_after(args, name, i + 1)
    }
}

/// The text that may be missing.
pub open spec fn text_in(text: Option<&str>) -> Option<Seq<char>> {
    match text {
        Some(t) => Some(t@),
        None => None,
    }
}

/// The argument behind the first one that equals `name`.
pub fn argument_value<'a>(args: &'a Vec<String>, name: &str) -> (r: Option<&'a str>)
    ensures
        text_in(r) == value_after(args@, name@, 0),
{
    let mut i: usize = 0;
    while i < args.len() && args.len() - i > 1
        invariant
            i <= args@.len(),
            value_after(args@, name@, 0) == value_after(args@, name@, i as int),
        decreases args@.len() - i,
    {
        if same_text(args[i].as_str(), name) {
            return Some(args[i + 1].as_str());
        }
        i += 1;
    }
    None
}

/// Whether an argument equals `name`.
pub open spec fn is_given(args: Seq<String>, name: Seq<char>) -> bool {
    exists|i: int| 0 <= i < args.len() && #[trigger] args[i]@ == name
}

fn has_argument(args: &Vec<String>, name: &str) -> (r: bool)
    ensures
        r == is_given(args@, name@),
{
    let mut i: usize = 0;
    while i < args.len()
        invariant
            i <= args@.len(),
            forall|j: int| 0 <= j < i ==> #[trigger] args@[j]@ != name@,
        decreases args@.len() - i,
    {
        if same_text(args[i].as_str(), name) {
            return true;
        }
        i += 1;
    }
    false
}

/// What arguments ask for, the program's own name first.
pub open spec fn command_of(args: Seq<String>) -> Command {
    if args.len() < 2 {
        Command::Help
    } else if args[1]@ == "serve"@ {
        Command::Serve { observe_only: is_given(args, "--dry-run"@) }
    } else if args[1]@ == "--discover-only"@ || args[1]@ == "discover-only"@ {
        Command::DiscoverOnly
    } else if args[1]@ == "calibration-summary"@ {
        Command::CalibrationSummary
    } else if args[1]@ == "execution-summary"@ {
        Command::ExecutionSummary
    } else if args[1]@ == "store-calibration-summary"@ {
        Command::StoreCalibrationSummary
    } else if args[1]@ == "manual-signal"@ {
        Command::ManualSignal
    } else {
        Command::Help
    }
}

/// What arguments ask for, the program's own name first.
pub fn command(args: &Vec<String>) -> (r: Command)
    ensures
        r == command_of(args@),
{
    if args.len() < 2 {
        return Command::Help;
    }
    let name = args[1].as_str();
    if same_text(name, "serve") {
        Command::Serve { observe_only: has_argument(args, "--dry-run") }
    } else if is_either(name, "--discover-only", "discover-only") {
        Command::DiscoverOnly
    } else if same_text(name, "calibration-summary") {
        Command::CalibrationSummary
    } else if same_text(name, "execution-summary") {
        Command::ExecutionSummary
    } else if same_text(name, "store-calibration-summary") {
        Command::StoreCalibrationSummary
    } else if same_text(name, "manual-signal") {
        Command::ManualSignal
    } else {
        Command::Help
    }
}

/// Where the configuration is.
pub fn config_path(args: &Vec<String>) -> (r: &str)
    ensures
        r@ == (match value_after(args@, "--config"@, 0) {
            Some(path) => path,
            None => DEFAULT_CONFIG_PATH@,
        }),
{
    match argument_value(args, "--config") {
        Some(path) => path,
        None => DEFAULT_CONFIG_PATH,
    }
}

/// The market that a manual signal is for; refused unless it is confirmed.
pub open spec fn manual_market_of(args: Seq<String>) -> Result<Seq<char>, StrategyError> {
    if args.len() < 3 {
        Err(StrategyError::MarketArgumentMissing)
    } else if value_after(args, "--confirm"@, 0) != Some(CONFIRMATION@) {
        Err(StrategyError::ConfirmationMissing)
    } else {
        Ok(args[2]@)
    }
}

/// The market that a manual signal is for; refused unless it is confirmed.
pub fn manual_market(args: &Vec<String>) -> (r: Result<&str, StrategyError>)
    ensures
        match r {
            Ok(market) => manual_market_of(args@) == Ok::<Seq<char>, StrategyError>(market@),
            Err(error) => manual_market_of(args@) == Err::<Seq<char>, StrategyError>(error),
        },
{
    if args.len() < 3 {
        return Err(StrategyError::MarketArgumentMissing);
    }
    let confirmed = match argument_value(args, "--confirm") {
        Some(value) => same_text(value, CONFIRMATION),
        None => false,
    };
    if !confirmed {
        return Err(StrategyError::ConfirmationMissing);
    }
    Ok(args[2].as_str())
}

/// How many markets are to be followed.
pub open spec fn followed(
    markets: Seq<BinaryCryptoMarket>,
    now_ms: i64,
    max_horizon_ms: u64,
) -> nat
    decreases markets.len(),
{
    if markets.len() == 0 {
        0
    } else {
        followed(markets.drop_last(), now_ms, max_horizon_ms) + if is_subscribable(
            markets.last()@,
            now_ms,
            max_horizon_ms,
        ) {
            1nat
        } else {
            0
        }
    }
}

/// How many markets are to be followed.
pub fn count_subscribable(
    markets: &Vec<BinaryCryptoMarket>,
    now_ms: i64,
    max_horizon_ms: u64,
) -> (r: usize)
    ensures
        r == followed(markets@, now_ms, max_horizon_ms),
        r <= markets@.len(),
{
    let mut count: usize = 0;
    let mut i: usize = 0;
    while i < markets.len()
        invariant
            i <= markets@.len(),
            count <= i,
            count == followed(markets@.take(i as int), now_ms, max_horizon_ms),
        decreases markets@.len() - i,
    {
        assert(markets@.take(i + 1).drop_last() =~= markets@.take(i as int));
        if markets[i].subscribable(now_ms, max_horizon_ms) {
            count += 1;
        }
        i += 1;
    }
    assert(markets@.take(i as int) =~= markets@);
    count
}

/// The value of a name is the argument behind the first one that equals it, where one
/// stands there.
pub proof fn law_the_value_of_a_name(args: Seq<String>, name: Seq<char>, at: int)
    requires
        0 <= at,
        at + 1 < args.len(),
        args[at]@ == name,
        forall|i: int| 0 <= i < at ==> (#[trigger] args[i])@ != name,
    ensures
        value_after(args, name, 0) == Some(args[at + 1]@),
{
    lemma_value_from(args, name, at, 0);
}

proof fn lemma_value_from(args: Seq<String>, name: Seq<char>, at: int, from: int)
    requires
        0 <= from <= at,
        at + 1 < args.len(),
        args[at]@ == name,
        forall|i: int| 0 <= i < at ==> (#[trigger] args[i])@ != name,
    ensures
        value_after(args, name, from) == Some(args[at + 1]@),
    decreases at - from,
{
    if from < at {
        lemma_value_from(args, name, at, from + 1);
    }
}

/// A manual signal is for the market that is named, and only where it is confirmed.
pub proof fn law_manual_signals_are_confirmed(args: Seq<String>)
    ensures
        match manual_market_of(args) {
            Ok(market) => args.len() > 2 && market == args[2]@ && value_after(
                args,
                "--confirm"@,
                0,
            ) == Some("MANUAL_DIAGNOSTIC_ONLY"@),
            Err(StrategyError::MarketArgumentMissing) => args.len() <= 2,
            Err(e) => e == StrategyError::ConfirmationMissing && value_after(args, "--confirm"@, 0)
                != Some("MANUAL_DIAGNOSTIC_ONLY"@),
        },
{
}

/// Serving only observes exactly when a dry run was asked for, anywhere.
pub proof fn law_dry_runs_only_observe(args: Seq<String>)
    requires
        args.len() >= 2,
        args[1]@ == "serve"@,
    ensures
        command_of(args) == (Command::Serve {
            observe_only: exists|i: int| 0 <= i < args.len() && #[trigger] args[i]@ == "--dry-run"@,
        }),
{
}

} // verus!
