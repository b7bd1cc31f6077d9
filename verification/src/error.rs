//! What the strategy reports when it refuses something.

use crate::text::append_nat;
use crate::text::nat_text;
use vstd::prelude::*;
use vstd::string::StringExecFns;

verus! {

/// Why something was refused.
#[derive(Clone, Copy, Debug, PartialEq, Eq)]
pub enum StrategyError {
    /// Gamma fee curve is missing.
    GammaFeeCurveMissing,
    /// Gamma fee exponent is missing.
    GammaFeeExponentMissing,
    /// CLOB fee curve is missing.
    ClobFeeCurveMissing,
    /// CLOB fee exponent is missing.
    ClobFeeExponentMissing,
    /// Gamma fee applicability is missing.
    GammaFeeApplicabilityMissing,
    /// CLOB fee applicability is missing.
    ClobFeeApplicabilityMissing,
    /// Gamma and CLOB fee curves are contradictory.
    FeeCurvesContradictory,
    /// Final REST refresh exceeded latency limit.
    RestRefreshTooSlow,
    /// WebSocket and REST books identify different markets or tokens.
    BooksIdentifyDifferently,
    /// Book is stale or future-dated.
    BookStale,
    /// Complementary token book timestamps exceed skew limit.
    BooksSkewed,
    /// WebSocket and REST depth disagree beyond tolerance.
    DepthDisagrees,
    /// Quantity must be positive.
    QuantityNotPositive,
    /// Insufficient executable depth.
    InsufficientDepth,
    /// Book contains an invalid price or size.
    InvalidLevel,
    /// An unresolved orphan blocks new cycles.
    UnresolvedOrphan,
    /// A nonterminal cycle already exists for market and direction.
    CycleActive,
    /// Signal rate limit exceeded.
    RateLimited,
    /// Invalid gate key.
    InvalidGateKey,
    /// Invalid gate direction.
    InvalidGateDirection,
    /// Invalid gate bucket.
    InvalidGateBucket,
    /// No CLOB shard has capacity for an outcome pair.
    NoShardCapacity,
    /// Parsing CLOB books JSON.
    BooksJson,
    /// Parsing CLOB market info JSON.
    MarketInfoJson,
    /// CLOB market info condition id mismatch.
    ConditionMismatch,
    /// CLOB market info is missing tokens.
    TokensMissing,
    /// CLOB market info is missing tick size.
    TickSizeMissing,
    /// Book side is missing.
    BookSideMissing,
    /// Book level price is missing.
    LevelPriceMissing,
    /// Book level size is missing.
    LevelSizeMissing,
    /// Required string is missing.
    RequiredStringMissing,
    /// Parsing Gamma JSON.
    GammaJson,
    /// Timestamp outside supported range.
    TimestampOutOfRange,
    /// Formatting Gamma timestamp.
    TimestampUnformattable,
    /// Token A WebSocket book missing.
    TokenABookMissing,
    /// Token B WebSocket book missing.
    TokenBBookMissing,
    /// Market duration is outside calibration buckets.
    DurationOutsideBuckets,
    /// Token A REST book missing.
    TokenARestBookMissing,
    /// Token B REST book missing.
    TokenBRestBookMissing,
    /// Opportunity disappeared in final REST refresh.
    OpportunityDisappeared,
    /// Daily loss circuit breaker is active.
    DailyLossHalted,
    /// Strategy risk limit rejected the cycle.
    RiskLimit,
    /// Gamma/CLOB token mapping mismatch.
    TokenMappingMismatch,
    /// Gamma/CLOB tick size mismatch.
    TickSizeMismatch,
    /// CLOB market is not accepting orders.
    NotAcceptingOrders,
    /// link.endpoint, link.strategy_id, and link.source are required.
    LinkIncomplete,
    /// link.strategy_id must match [a-z0-9_-]{1,64}.
    StrategyIdInvalid,
    /// monitor.endpoint, tenant_id, and api_key_env are required.
    MonitorIncomplete,
    /// discovery endpoints and positive pagination/horizon settings are required.
    DiscoveryIncomplete,
    /// discovery.page_limit cannot exceed 100.
    PageLimitTooLarge,
    /// All CLOB endpoints are required.
    ClobIncomplete,
    /// clob shard limits must be positive and max_total_assets must be at least max_assets_per_connection.
    ShardLimitsInvalid,
    /// Quality time limits must be positive.
    QualityLimitsInvalid,
    /// profitability thresholds must be positive.
    ThresholdsNotPositive,
    /// profitability.depth_fraction must be in (0, 1].
    DepthFractionInvalid,
    /// profitability.price_band_low_max must be < price_band_high_min, within (0, 1).
    PriceBandInvalid,
    /// risk limits must be positive.
    RiskLimitsNotPositive,
    /// risk.signals_per_minute must be positive.
    SignalRateNotPositive,
    /// Calibration requires >=24h, >=100 cycles, and coverage in [0,1].
    CalibrationInvalid,
    /// All state paths are required.
    StatePathsMissing,
    /// Manual-signal requires MARKET_ID.
    MarketArgumentMissing,
    /// Manual diagnostic requires --confirm MANUAL_DIAGNOSTIC_ONLY and still enforces every data, risk, and maturity gate.
    ConfirmationMissing,
    /// Unknown direction in decision store.
    UnknownDirection,
    /// Decimal arithmetic is out of range.
    OutOfRange,
    /// More assets than the configured maximum.
    TooManyAssets { count: usize, maximum: usize },
}

/// The message of an error.
pub open spec fn error_text(error: StrategyError) -> Seq<char> {
    match error {
        StrategyError::GammaFeeCurveMissing => "Gamma fee curve is missing"@,
        StrategyError::GammaFeeExponentMissing => "Gamma fee exponent is missing"@,
        StrategyError::ClobFeeCurveMissing => "CLOB fee curve is missing"@,
        StrategyError::ClobFeeExponentMissing => "CLOB fee exponent is missing"@,
        StrategyError::GammaFeeApplicabilityMissing => "Gamma fee applicability is missing"@,
        StrategyError::ClobFeeApplicabilityMissing => "CLOB fee applicability is missing"@,
        StrategyError::FeeCurvesContradictory => "Gamma and CLOB fee curves are contradictory"@,
        StrategyError::RestRefreshTooSlow => "final REST refresh exceeded latency limit"@,
        StrategyError::BooksIdentifyDifferently => "WebSocket and REST books identify different markets or tokens"@,
        StrategyError::BookStale => "book is stale or future-dated"@,
        StrategyError::BooksSkewed => "complementary token book timestamps exceed skew limit"@,
        StrategyError::DepthDisagrees => "WebSocket and REST depth disagree beyond tolerance"@,
        StrategyError::QuantityNotPositive => "quantity must be positive"@,
        StrategyError::InsufficientDepth => "insufficient executable depth"@,
        StrategyError::InvalidLevel => "book contains an invalid price or size"@,
        StrategyError::UnresolvedOrphan => "an unresolved orphan blocks new cycles"@,
        StrategyError::CycleActive => "a nonterminal cycle already exists for market and direction"@,
        StrategyError::RateLimited => "signal rate limit exceeded"@,
        StrategyError::InvalidGateKey => "invalid gate key"@,
        StrategyError::InvalidGateDirection => "invalid gate direction"@,
        StrategyError::InvalidGateBucket => "invalid gate bucket"@,
        StrategyError::NoShardCapacity => "no CLOB shard has capacity for an outcome pair"@,
        StrategyError::BooksJson => "parsing CLOB books JSON"@,
        StrategyError::MarketInfoJson => "parsing CLOB market info JSON"@,
        StrategyError::ConditionMismatch => "CLOB market info condition id mismatch"@,
        StrategyError::TokensMissing => "CLOB market info is missing tokens"@,
        StrategyError::TickSizeMissing => "CLOB market info is missing tick size"@,
        StrategyError::BookSideMissing => "book side is missing"@,
        StrategyError::LevelPriceMissing => "book level price is missing"@,
        StrategyError::LevelSizeMissing => "book level size is missing"@,
        StrategyError::RequiredStringMissing => "required string is missing"@,
        StrategyError::GammaJson => "parsing Gamma JSON"@,
        StrategyError::TimestampOutOfRange => "timestamp outside supported range"@,
        StrategyError::TimestampUnformattable => "formatting Gamma timestamp"@,
        StrategyError::TokenABookMissing => "token A WebSocket book missing"@,
        StrategyError::TokenBBookMissing => "token B WebSocket book missing"@,
        StrategyError::DurationOutsideBuckets => "market duration is outside calibration buckets"@,
        StrategyError::TokenARestBookMissing => "token A REST book missing"@,
        StrategyError::TokenBRestBookMissing => "token B REST book missing"@,
        StrategyError::OpportunityDisappeared => "opportunity disappeared in final REST refresh"@,
        StrategyError::DailyLossHalted => "daily loss circuit breaker is active"@,
        StrategyError::RiskLimit => "strategy risk limit rejected the cycle"@,
        StrategyError::TokenMappingMismatch => "Gamma/CLOB token mapping mismatch"@,
        StrategyError::TickSizeMismatch => "Gamma/CLOB tick size mismatch"@,
        StrategyError::NotAcceptingOrders => "CLOB market is not accepting orders"@,
        StrategyError::LinkIncomplete => "link.endpoint, link.strategy_id, and link.source are required"@,
        StrategyError::StrategyIdInvalid => "link.strategy_id must match [a-z0-9_-]{1,64}"@,
        StrategyError::MonitorIncomplete => "monitor.endpoint, tenant_id, and api_key_env are required"@,
        StrategyError::DiscoveryIncomplete => "discovery endpoints and positive pagination/horizon settings are required"@,
        StrategyError::PageLimitTooLarge => "discovery.page_limit cannot exceed 100"@,
        StrategyError::ClobIncomplete => "all CLOB endpoints are required"@,
        StrategyError::ShardLimitsInvalid => "clob shard limits must be positive and max_total_assets must be at least max_assets_per_connection"@,
        StrategyError::QualityLimitsInvalid => "quality time limits must be positive"@,
        StrategyError::ThresholdsNotPositive => "profitability thresholds must be positive"@,
        StrategyError::DepthFractionInvalid => "profitability.depth_fraction must be in (0, 1]"@,
        StrategyError::PriceBandInvalid => "profitability.price_band_low_max must be < price_band_high_min, within (0, 1)"@,
        StrategyError::RiskLimitsNotPositive => "risk limits must be positive"@,
        StrategyError::SignalRateNotPositive => "risk.signals_per_minute must be positive"@,
        StrategyError::CalibrationInvalid => "calibration requires >=24h, >=100 cycles, and coverage in [0,1]"@,
        StrategyError::StatePathsMissing => "all state paths are required"@,
        StrategyError::MarketArgumentMissing => "manual-signal requires MARKET_ID"@,
        StrategyError::ConfirmationMissing => "manual diagnostic requires --confirm MANUAL_DIAGNOSTIC_ONLY and still enforces every data, risk, and maturity gate"@,
        StrategyError::UnknownDirection => "unknown direction in decision store"@,
        StrategyError::OutOfRange => "decimal arithmetic is out of range"@,
        StrategyError::TooManyAssets { count, maximum } => nat_text(count as nat)
            + " assets exceed configured maximum "@ + nat_text(maximum as nat),
    }
}

impl StrategyError {
    /// The message of the error.
    pub fn message(&self) -> (r: String)
        ensures
            r@ == error_text(*self),
    {
        match self {
            StrategyError::GammaFeeCurveMissing => "Gamma fee curve is missing".to_owned(),
            StrategyError::GammaFeeExponentMissing => "Gamma fee exponent is missing".to_owned(),
            StrategyError::ClobFeeCurveMissing => "CLOB fee curve is missing".to_owned(),
            StrategyError::ClobFeeExponentMissing => "CLOB fee exponent is missing".to_owned(),
            StrategyError::GammaFeeApplicabilityMissing => "Gamma fee applicability is missing".to_owned(),
            StrategyError::ClobFeeApplicabilityMissing => "CLOB fee applicability is missing".to_owned(),
            StrategyError::FeeCurvesContradictory => "Gamma and CLOB fee curves are contradictory".to_owned(),
            StrategyError::RestRefreshTooSlow => "final REST refresh exceeded latency limit".to_owned(),
            StrategyError::BooksIdentifyDifferently => "WebSocket and REST books identify different markets or tokens".to_owned(),
            StrategyError::BookStale => "book is stale or future-dated".to_owned(),
            StrategyError::BooksSkewed => "complementary token book timestamps exceed skew limit".to_owned(),
            StrategyError::DepthDisagrees => "WebSocket and REST depth disagree beyond tolerance".to_owned(),
            StrategyError::QuantityNotPositive => "quantity must be positive".to_owned(),
            StrategyError::InsufficientDepth => "insufficient executable depth".to_owned(),
            StrategyError::InvalidLevel => "book contains an invalid price or size".to_owned(),
            StrategyError::UnresolvedOrphan => "an unresolved orphan blocks new cycles".to_owned(),
            StrategyError::CycleActive => "a nonterminal cycle already exists for market and direction".to_owned(),
            StrategyError::RateLimited => "signal rate limit exceeded".to_owned(),
            StrategyError::InvalidGateKey => "invalid gate key".to_owned(),
            StrategyError::InvalidGateDirection => "invalid gate direction".to_owned(),
            StrategyError::InvalidGateBucket => "invalid gate bucket".to_owned(),
            StrategyError::NoShardCapacity => "no CLOB shard has capacity for an outcome pair".to_owned(),
            StrategyError::BooksJson => "parsing CLOB books JSON".to_owned(),
            StrategyError::MarketInfoJson => "parsing CLOB market info JSON".to_owned(),
            StrategyError::ConditionMismatch => "CLOB market info condition id mismatch".to_owned(),
            StrategyError::TokensMissing => "CLOB market info is missing tokens".to_owned(),
            StrategyError::TickSizeMissing => "CLOB market info is missing tick size".to_owned(),
            StrategyError::BookSideMissing => "book side is missing".to_owned(),
            StrategyError::LevelPriceMissing => "book level price is missing".to_owned(),
            StrategyError::LevelSizeMissing => "book level size is missing".to_owned(),
            StrategyError::RequiredStringMissing => "required string is missing".to_owned(),
            StrategyError::GammaJson => "parsing Gamma JSON".to_owned(),
            StrategyError::TimestampOutOfRange => "timestamp outside supported range".to_owned(),
            StrategyError::TimestampUnformattable => "formatting Gamma timestamp".to_owned(),
            StrategyError::TokenABookMissing => "token A WebSocket book missing".to_owned(),
            StrategyError::TokenBBookMissing => "token B WebSocket book missing".to_owned(),
            StrategyError::DurationOutsideBuckets => "market duration is outside calibration buckets".to_owned(),
            StrategyError::TokenARestBookMissing => "token A REST book missing".to_owned(),
            StrategyError::TokenBRestBookMissing => "token B REST book missing".to_owned(),
            StrategyError::OpportunityDisappeared => "opportunity disappeared in final REST refresh".to_owned(),
            StrategyError::DailyLossHalted => "daily loss circuit breaker is active".to_owned(),
            StrategyError::RiskLimit => "strategy risk limit rejected the cycle".to_owned(),
            StrategyError::TokenMappingMismatch => "Gamma/CLOB token mapping mismatch".to_owned(),
            StrategyError::TickSizeMismatch => "Gamma/CLOB tick size mismatch".to_owned(),
            StrategyError::NotAcceptingOrders => "CLOB market is not accepting orders".to_owned(),
            StrategyError::LinkIncomplete => "link.endpoint, link.strategy_id, and link.source are required".to_owned(),
            StrategyError::StrategyIdInvalid => "link.strategy_id must match [a-z0-9_-]{1,64}".to_owned(),
            StrategyError::MonitorIncomplete => "monitor.endpoint, tenant_id, and api_key_env are required".to_owned(),
            StrategyError::DiscoveryIncomplete => "discovery endpoints and positive pagination/horizon settings are required".to_owned(),
            StrategyError::PageLimitTooLarge => "discovery.page_limit cannot exceed 100".to_owned(),
            StrategyError::ClobIncomplete => "all CLOB endpoints are required".to_owned(),
            StrategyError::ShardLimitsInvalid => "clob shard limits must be positive and max_total_assets must be at least max_assets_per_connection".to_owned(),
            StrategyError::QualityLimitsInvalid => "quality time limits must be positive".to_owned(),
            StrategyError::ThresholdsNotPositive => "profitability thresholds must be positive".to_owned(),
            StrategyError::DepthFractionInvalid => "profitability.depth_fraction must be in (0, 1]".to_owned(),
            StrategyError::PriceBandInvalid => "profitability.price_band_low_max must be < price_band_high_min, within (0, 1)".to_owned(),
            StrategyError::RiskLimitsNotPositive => "risk limits must be positive".to_owned(),
            StrategyError::SignalRateNotPositive => "risk.signals_per_minute must be positive".to_owned(),
            StrategyError::CalibrationInvalid => "calibration requires >=24h, >=100 cycles, and coverage in [0,1]".to_owned(),
            StrategyError::StatePathsMissing => "all state paths are required".to_owned(),
            StrategyError::MarketArgumentMissing => "manual-signal requires MARKET_ID".to_owned(),
            StrategyError::ConfirmationMissing => "manual diagnostic requires --confirm MANUAL_DIAGNOSTIC_ONLY and still enforces every data, risk, and maturity gate".to_owned(),
            StrategyError::UnknownDirection => "unknown direction in decision store".to_owned(),
            StrategyError::OutOfRange => "decimal arithmetic is out of range".to_owned(),
            StrategyError::TooManyAssets { count, maximum } => {
                let mut out = String::new();
                append_nat(&mut out, *count as u64);
                out.append(" assets exceed configured maximum ");
                append_nat(&mut out, *maximum as u64);
                proof {
                    assert(out@ =~= error_text(*self));
                }
                out
            },
        }
    }
}

} // verus!
