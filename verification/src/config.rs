//! The runtime configuration and its validation.

use crate::decimal::le;
use crate::decimal::less;
use crate::decimal::lt;
use crate::decimal::one;
use crate::decimal::decimal_of;
use crate::decimal::Decimal;
use crate::error::StrategyError;
use crate::text::is_blank;
use crate::text::is_blank_text;
use vstd::prelude::*;

verus! {

/// Where the configuration is read from when no path is given.
pub const DEFAULT_CONFIG_PATH: &'static str = "/etc/moni-strategy-beta/config.toml";

/// Where the metrics listener binds when no address is configured.
pub const DEFAULT_METRICS_BIND: &'static str = "127.0.0.1:9465";

/// The link to the engine.
#[derive(Clone, Debug)]
pub struct LinkConfig {
    pub endpoint: String,
    pub strategy_id: String,
    pub source: String,
}

/// The monitor that reports executions.
#[derive(Clone, Debug)]
pub struct MonitorConfig {
    pub endpoint: String,
    pub tenant_id: String,
    pub api_key_env: String,
    pub poll_interval_ms: u64,
}

/// The store of recorded book snapshots.
#[derive(Clone, Debug)]
pub struct StoreConfig {
    pub endpoint: String,
    pub snapshot_max_age_ms: u64,
    pub assumed_taker_fee_rate: Decimal,
}

/// Market discovery.
#[derive(Clone, Debug)]
pub struct DiscoveryConfig {
    pub gamma_endpoint: String,
    pub page_limit: usize,
    pub max_pages: usize,
    pub max_horizon_ms: u64,
    pub refresh_interval_secs: u64,
}

/// The order-book service.
#[derive(Clone, Debug)]
pub struct ClobConfig {
    pub ws_endpoint: String,
    pub rest_endpoint: String,
    pub market_info_endpoint: String,
    pub max_assets_per_connection: usize,
    pub max_total_assets: usize,
}

/// Limits on the age, skew and agreement of market data.
#[derive(Clone, Copy, Debug)]
pub struct QualityConfig {
    pub max_book_age_ms: u64,
    pub max_token_skew_ms: u64,
    pub max_tick_disagreement: u32,
    pub rest_timeout_ms: u64,
    pub max_rest_round_trip_ms: u64,
}

/// What an opportunity must earn.
#[derive(Clone, Copy, Debug)]
pub struct ProfitabilityConfig {
    pub price_band_enabled: bool,
    pub minimum_profit: Decimal,
    pub minimum_return_bps: Decimal,
    pub depth_fraction: Decimal,
    pub price_band_low_max: Decimal,
    pub price_band_high_min: Decimal,
}

/// What is set aside for slippage, latency and orphaned legs.
#[derive(Clone, Copy, Debug)]
pub struct ReserveConfig {
    pub slippage_bps: Decimal,
    pub latency: Decimal,
    pub orphan: Decimal,
    pub rounding_scale: u32,
}

/// Exposure limits.
#[derive(Clone, Copy, Debug)]
pub struct RiskConfig {
    pub max_per_cycle: Decimal,
    pub max_per_market: Decimal,
    pub max_per_underlying: Decimal,
    pub max_aggregate: Decimal,
    pub max_orphan_loss: Decimal,
    pub max_unmatched_inventory: Decimal,
    pub daily_loss_limit: Decimal,
    pub signals_per_minute: usize,
}

/// What a calibration gate needs to unlock.
#[derive(Clone, Copy, Debug)]
pub struct CalibrationConfig {
    pub minimum_age_hours: u64,
    pub minimum_cycles: usize,
    pub minimum_coverage: Decimal,
}

/// Where state is kept.
#[derive(Clone, Debug)]
pub struct StateConfig {
    pub decision_db_path: String,
    pub calibration_log_path: String,
    pub gate_state_path: String,
}

/// Recovery of open positions before a market closes.
#[derive(Clone, Copy, Debug)]
pub struct RecoveryConfig {
    pub enabled: bool,
    pub close_lead_ms: i64,
}

/// The metrics listener.
#[derive(Clone, Debug)]
pub struct MetricsConfig {
    pub bind: String,
}

/// The whole configuration.
#[derive(Clone, Debug)]
pub struct RuntimeConfig {
    pub link: LinkConfig,
    pub monitor: MonitorConfig,
    pub store: StoreConfig,
    pub discovery: DiscoveryConfig,
    pub clob: ClobConfig,
    pub quality: QualityConfig,
    pub profitability: ProfitabilityConfig,
    pub reserves: ReserveConfig,
    pub risk: RiskConfig,
    pub calibration: CalibrationConfig,
    pub state: StateConfig,
    pub recovery: RecoveryConfig,
    pub metrics: MetricsConfig,
}

/// The characters that a strategy identifier may hold.
pub open spec fn is_id_char(c: char) -> bool {
    ('a' <= c && c <= 'z') || ('0' <= c && c <= '9') || c == '_' || c == '-'
}

/// `[a-z0-9_-]{1,64}`.
pub open spec fn is_strategy_id(text: Seq<char>) -> bool {
    &&& 1 <= text.len() <= 64
    &&& forall|i: int| 0 <= i < text.len() ==> is_id_char(#[trigger] text[i])
}

/// Whether a strategy identifier matches `[a-z0-9_-]{1,64}`.
pub fn valid_strategy_id(value: &str) -> (r: bool)
    ensures
        r == is_strategy_id(value@),
{
    let mut count: usize = 0;
    for c in it: value.chars()
        invariant
            it.seq() == value@,
            count == it.index(),
            count <= 64,
            forall|j: int| 0 <= j < it.index() ==> is_id_char(#[trigger] value@[j]),
    {
        let allowed = ('a' <= c && c <= 'z') || ('0' <= c && c <= '9') || c == '_' || c == '-';
        if !allowed {
            assert(!is_id_char(value@[it.index() as int]));
            return false;
        }
        if count == 64 {
            return false;
        }
        count += 1;
    }
    count > 0
}

/// How many assets one connection subscribes to when nothing is configured.
pub fn default_max_assets_per_connection() -> (r: usize)
    ensures
        r == 200,
{
    200
}

/// How many assets all connections subscribe to when nothing is configured.
pub fn default_max_total_assets() -> (r: usize)
    ensures
        r == 10_000,
{
    10_000
}

/// The lower edge of the skipped price band when nothing is configured.
pub fn default_price_band_low_max() -> (r: Decimal)
    ensures
        r == decimal_of(15, 2),
{
    Decimal::new(15, 2)
}

/// The upper edge of the skipped price band when nothing is configured.
pub fn default_price_band_high_min() -> (r: Decimal)
    ensures
        r == decimal_of(85, 2),
{
    Decimal::new(85, 2)
}

/// Whether every limit on exposure is positive.
pub open spec fn risk_limits_positive(risk: RiskConfig) -> bool {
    &&& risk.max_per_cycle.m() > 0
    &&& risk.max_per_market.m() > 0
    &&& risk.max_per_underlying.m() > 0
    &&& risk.max_aggregate.m() > 0
    &&& risk.max_orphan_loss.m() > 0
    &&& risk.max_unmatched_inventory.m() > 0
    &&& risk.daily_loss_limit.m() > 0
}

/// The first thing that is wrong with a configuration, if anything is.
pub open spec fn config_problem(config: RuntimeConfig) -> Option<StrategyError> {
    if is_blank_text(config.link.endpoint@) || is_blank_text(config.link.strategy_id@)
        || is_blank_text(config.link.source@) {
        Some(StrategyError::LinkIncomplete)
    } else if !is_strategy_id(config.link.strategy_id@) {
        Some(StrategyError::StrategyIdInvalid)
    } else if is_blank_text(config.monitor.endpoint@) || is_blank_text(config.monitor.tenant_id@)
        || is_blank_text(config.monitor.api_key_env@) {
        Some(StrategyError::MonitorIncomplete)
    } else if is_blank_text(config.discovery.gamma_endpoint@) || config.discovery.page_limit == 0
        || config.discovery.max_pages == 0 || config.discovery.max_horizon_ms == 0
        || config.discovery.refresh_interval_secs == 0 {
        Some(StrategyError::DiscoveryIncomplete)
    } else if config.discovery.page_limit > 100 {
        Some(StrategyError::PageLimitTooLarge)
    } else if is_blank_text(config.clob.ws_endpoint@) || is_blank_text(config.clob.rest_endpoint@)
        || is_blank_text(config.clob.market_info_endpoint@) {
        Some(StrategyError::ClobIncomplete)
    } else if config.clob.max_assets_per_connection == 0 || config.clob.max_total_assets
        < config.clob.max_assets_per_connection {
        Some(StrategyError::ShardLimitsInvalid)
    } else if config.quality.max_book_age_ms == 0 || config.quality.max_token_skew_ms == 0
        || config.quality.rest_timeout_ms == 0 || config.quality.max_rest_round_trip_ms == 0 {
        Some(StrategyError::QualityLimitsInvalid)
    } else if config.profitability.minimum_profit.m() <= 0
        || config.profitability.minimum_return_bps.m() <= 0 {
        Some(StrategyError::ThresholdsNotPositive)
    } else if config.profitability.depth_fraction.m() <= 0 || lt(
        one(),
        config.profitability.depth_fraction,
    ) {
        Some(StrategyError::DepthFractionInvalid)
    } else if config.profitability.price_band_low_max.m() <= 0 || le(
        one(),
        config.profitability.price_band_high_min,
    ) || le(config.profitability.price_band_high_min, config.profitability.price_band_low_max) {
        Some(StrategyError::PriceBandInvalid)
    } else if !risk_limits_positive(config.risk) {
        Some(StrategyError::RiskLimitsNotPositive)
    } else if config.risk.signals_per_minute == 0 {
        Some(StrategyError::SignalRateNotPositive)
    } else if config.calibration.minimum_age_hours < 24 || config.calibration.minimum_cycles < 100
        || config.calibration.minimum_coverage.m() < 0 || lt(
        one(),
        config.calibration.minimum_coverage,
    ) {
        Some(StrategyError::CalibrationInvalid)
    } else if is_blank_text(config.state.decision_db_path@) || is_blank_text(
        config.state.calibration_log_path@,
    ) || is_blank_text(config.state.gate_state_path@) {
        Some(StrategyError::StatePathsMissing)
    } else {
        None
    }
}

fn any_blank(a: &String, b: &String, c: &String) -> (r: bool)
    ensures
        r == (is_blank_text(a@) || is_blank_text(b@) || is_blank_text(c@)),
{
    is_blank(a.as_str()) || is_blank(b.as_str()) || is_blank(c.as_str())
}

/// A configuration without a problem demands a profit of every offer, takes no
/// more than the depth there is, limits every risk, and asks a day and a hundred
/// cycles of every gate.
pub proof fn law_valid_configurations_are_cautious(config: RuntimeConfig)
    requires
        config_problem(config) is None,
    ensures
        config.profitability.minimum_profit.m() > 0,
        config.profitability.minimum_return_bps.m() > 0,
        config.profitability.depth_fraction.m() > 0,
        le(config.profitability.depth_fraction, one()),
        risk_limits_positive(config.risk),
        config.risk.signals_per_minute > 0,
        config.calibration.minimum_age_hours >= 24,
        config.calibration.minimum_cycles >= 100,
{
}

impl RuntimeConfig {
    /// Checks the configuration, and reports the first problem.
    pub fn validate(&self) -> (r: Result<(), StrategyError>)
        ensures
            match r {
                Ok(_) => config_problem(*self) is None,
                Err(e) => config_problem(*self) == Some(e),
            },
    {
        if any_blank(&self.link.endpoint, &self.link.strategy_id, &self.link.source) {
            return Err(StrategyError::LinkIncomplete);
        }
        if !valid_strategy_id(self.link.strategy_id.as_str()) {
            return Err(StrategyError::StrategyIdInvalid);
        }
        if any_blank(&self.monitor.endpoint, &self.monitor.tenant_id, &self.monitor.api_key_env) {
            return Err(StrategyError::MonitorIncomplete);
        }
        if is_blank(self.discovery.gamma_endpoint.as_str()) || self.discovery.page_limit == 0
            || self.discovery.max_pages == 0 || self.discovery.max_horizon_ms == 0
            || self.discovery.refresh_interval_secs == 0 {
            return Err(StrategyError::DiscoveryIncomplete);
        }
        if self.discovery.page_limit > 100 {
            return Err(StrategyError::PageLimitTooLarge);
        }
        if any_blank(
            &self.clob.ws_endpoint,
            &self.clob.rest_endpoint,
            &self.clob.market_info_endpoint,
        ) {
            return Err(StrategyError::ClobIncomplete);
        }
        if self.clob.max_assets_per_connection == 0 || self.clob.max_total_assets
            < self.clob.max_assets_per_connection {
            return Err(StrategyError::ShardLimitsInvalid);
        }
        if self.quality.max_book_age_ms == 0 || self.quality.max_token_skew_ms == 0
            || self.quality.rest_timeout_ms == 0 || self.quality.max_rest_round_trip_ms == 0 {
            return Err(StrategyError::QualityLimitsInvalid);
        }
        if !self.profitability.minimum_profit.is_positive()
            || !self.profitability.minimum_return_bps.is_positive() {
            return Err(StrategyError::ThresholdsNotPositive);
        }
        if !self.profitability.depth_fraction.is_positive() || less(
            Decimal::one(),
            self.profitability.depth_fraction,
        ) {
            return Err(StrategyError::DepthFractionInvalid);
        }
        if !self.profitability.price_band_low_max.is_positive() || !less(
            self.profitability.price_band_high_min,
            Decimal::one(),
        ) || !less(
            self.profitability.price_band_low_max,
            self.profitability.price_band_high_min,
        ) {
            return Err(StrategyError::PriceBandInvalid);
        }
        if !self.risk.max_per_cycle.is_positive() || !self.risk.max_per_market.is_positive()
            || !self.risk.max_per_underlying.is_positive()
            || !self.risk.max_aggregate.is_positive() || !self.risk.max_orphan_loss.is_positive()
            || !self.risk.max_unmatched_inventory.is_positive()
            || !self.risk.daily_loss_limit.is_positive() {
            return Err(StrategyError::RiskLimitsNotPositive);
        }
        if self.risk.signals_per_minute == 0 {
            return Err(StrategyError::SignalRateNotPositive);
        }
        if self.calibration.minimum_age_hours < 24 || self.calibration.minimum_cycles < 100
            || self.calibration.minimum_coverage.is_negative() || less(
            Decimal::one(),
            self.calibration.minimum_coverage,
        ) {
            return Err(StrategyError::CalibrationInvalid);
        }
        if any_blank(
            &self.state.decision_db_path,
            &self.state.calibration_log_path,
            &self.state.gate_state_path,
        ) {
            return Err(StrategyError::StatePathsMissing);
        }
        Ok(())
    }
}

/// A configuration is valid exactly when it names every endpoint, account and path,
/// its strategy identifier is one, its limits and thresholds are positive and in
/// their ranges, and its gates ask for a day and a hundred cycles.
pub proof fn law_what_a_valid_configuration_is(config: RuntimeConfig)
    ensures
        config_problem(config) is None <==> {
            &&& !is_blank_text(config.link.endpoint@)
            &&& !is_blank_text(config.link.source@)
            &&& is_strategy_id(config.link.strategy_id@)
            &&& !is_blank_text(config.link.strategy_id@)
            &&& !is_blank_text(config.monitor.endpoint@)
            &&& !is_blank_text(config.monitor.tenant_id@)
            &&& !is_blank_text(config.monitor.api_key_env@)
            &&& !is_blank_text(config.discovery.gamma_endpoint@)
            &&& 1 <= config.discovery.page_limit <= 100
            &&& config.discovery.max_pages >= 1
            &&& config.discovery.max_horizon_ms >= 1
            &&& config.discovery.refresh_interval_secs >= 1
            &&& !is_blank_text(config.clob.ws_endpoint@)
            &&& !is_blank_text(config.clob.rest_endpoint@)
            &&& !is_blank_text(config.clob.market_info_endpoint@)
            &&& 1 <= config.clob.max_assets_per_connection <= config.clob.max_total_assets
            &&& config.quality.max_book_age_ms >= 1
            &&& config.quality.max_token_skew_ms >= 1
            &&& config.quality.rest_timeout_ms >= 1
            &&& config.quality.max_rest_round_trip_ms >= 1
            &&& config.profitability.minimum_profit.m() > 0
            &&& config.profitability.minimum_return_bps.m() > 0
            &&& config.profitability.depth_fraction.m() > 0
            &&& !lt(one(), config.profitability.depth_fraction)
            &&& config.profitability.price_band_low_max.m() > 0
            &&& lt(
                config.profitability.price_band_low_max,
                config.profitability.price_band_high_min,
            )
            &&& lt(config.profitability.price_band_high_min, one())
            &&& config.risk.max_per_cycle.m() > 0
            &&& config.risk.max_per_market.m() > 0
            &&& config.risk.max_per_underlying.m() > 0
            &&& config.risk.max_aggregate.m() > 0
            &&& config.risk.max_orphan_loss.m() > 0
            &&& config.risk.max_unmatched_inventory.m() > 0
            &&& config.risk.daily_loss_limit.m() > 0
            &&& config.risk.signals_per_minute >= 1
            &&& config.calibration.minimum_age_hours >= 24
            &&& config.calibration.minimum_cycles >= 100
            &&& config.calibration.minimum_coverage.m() >= 0
            &&& !lt(one(), config.calibration.minimum_coverage)
            &&& !is_blank_text(config.state.decision_db_path@)
            &&& !is_blank_text(config.state.calibration_log_path@)
            &&& !is_blank_text(config.state.gate_state_path@)
        },
{
}

/// A strategy identifier has at least one and at most 64 characters, each a lower
/// case letter, a digit, an underscore or a hyphen.
pub proof fn law_what_a_strategy_identifier_is(text: Seq<char>)
    ensures
        is_strategy_id(text) <==> 0 < text.len() < 65 && forall|i: int|
            0 <= i < text.len() ==> {
                ||| 'a' <= #[trigger] text[i] <= 'z'
                ||| '0' <= text[i] <= '9'
                ||| text[i] == '-'
                ||| text[i] == '_'
            },
{
    if 0 < text.len() < 65 && forall|i: int|
        0 <= i < text.len() ==> {
            ||| 'a' <= #[trigger] text[i] <= 'z'
            ||| '0' <= text[i] <= '9'
            ||| text[i] == '-'
            ||| text[i] == '_'
        } {
        assert(forall|i: int| 0 <= i < text.len() ==> is_id_char(#[trigger] text[i]));
    }
    if is_strategy_id(text) {
        assert(forall|i: int| 0 <= i < text.len() ==> is_id_char(#[trigger] text[i]));
    }
}

} // verus!
