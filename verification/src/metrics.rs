//! The bounded labels of metrics.

use crate::link::SubmitOutcome;
use crate::text::begins_with;
use crate::text::same_text;
use vstd::prelude::*;

verus! {

/// The category of a decision's reason.
pub open spec fn reason_category(reason: Seq<char>) -> Seq<char> {
    if reason == "outside_price_band"@ || reason == "no_profitable_depth"@ || reason
        == "market_not_subscribable"@ || reason == "calibration_gate_locked"@ || reason
        == "forced_observe_only"@ || reason == "submitted"@ {
        reason
    } else if "rejected:"@.is_prefix_of(reason) {
        "invalid_data"@
    } else {
        "engine_or_risk_rejected"@
    }
}

/// The category of a decision's reason: one of eight, whatever the reason says.
pub fn decision_reason(reason: &str) -> (r: &'static str)
    ensures
        r@ == reason_category(reason@),
        r@ == "outside_price_band"@ || r@ == "no_profitable_depth"@ || r@
            == "market_not_subscribable"@ || r@ == "calibration_gate_locked"@ || r@
            == "forced_observe_only"@ || r@ == "submitted"@ || r@ == "invalid_data"@ || r@
            == "engine_or_risk_rejected"@,
{
    if same_text(reason, "outside_price_band") {
        "outside_price_band"
    } else if same_text(reason, "no_profitable_depth") {
        "no_profitable_depth"
    } else if same_text(reason, "market_not_subscribable") {
        "market_not_subscribable"
    } else if same_text(reason, "calibration_gate_locked") {
        "calibration_gate_locked"
    } else if same_text(reason, "forced_observe_only") {
        "forced_observe_only"
    } else if same_text(reason, "submitted") {
        "submitted"
    } else if begins_with(reason, "rejected:") {
        "invalid_data"
    } else {
        "engine_or_risk_rejected"
    }
}

/// The label of what became of a signal.
pub fn submission_label(outcome: &SubmitOutcome) -> (r: &'static str)
    ensures
        r@ == (match *outcome {
            SubmitOutcome::Accepted => "accepted"@,
            SubmitOutcome::Duplicate => "duplicate"@,
            SubmitOutcome::Rejected(_) => "rejected"@,
            SubmitOutcome::Retriable(_) => "retriable"@,
        }),
{
    match outcome {
        SubmitOutcome::Accepted => "accepted",
        SubmitOutcome::Duplicate => "duplicate",
        SubmitOutcome::Rejected(_) => "rejected",
        SubmitOutcome::Retriable(_) => "retriable",
    }
}

/// Whatever went wrong with data is one category, and whatever else is not known by
/// name another.
pub proof fn law_reasons_have_a_category(reason: Seq<char>, message: Seq<char>)
    ensures
        reason_category("rejected:"@ + message) == "invalid_data"@,
        reason_category("submitted"@) == "submitted"@,
        reason_category("outside_price_band"@) == "outside_price_band"@,
        reason_category("no_profitable_depth"@) == "no_profitable_depth"@,
        reason_category("market_not_subscribable"@) == "market_not_subscribable"@,
        reason_category("calibration_gate_locked"@) == "calibration_gate_locked"@,
        reason_category("forced_observe_only"@) == "forced_observe_only"@,
        reason_category("market_close_recovery_blocked"@) == "engine_or_risk_rejected"@,
{
    reveal_strlit("rejected:");
    reveal_strlit("submitted");
    reveal_strlit("outside_price_band");
    reveal_strlit("no_profitable_depth");
    reveal_strlit("market_not_subscribable");
    reveal_strlit("calibration_gate_locked");
    reveal_strlit("forced_observe_only");
    reveal_strlit("market_close_recovery_blocked");
    let rejected = "rejected:"@ + message;
    assert("rejected:"@.is_prefix_of(rejected)) by {
        assert(rejected.subrange(0, 9) =~= "rejected:"@);
    }
    assert(rejected[0] == 'r');
    assert("market_close_recovery_blocked"@.len() == 29);
    assert("market_close_recovery_blocked"@[0] == 'm');
}

} // verus!
