//! How well recorded snapshots cover recorded decisions.

use crate::collections::StringMap;
use crate::decision_store::CalibrationRow;
use crate::ints::distance;
use crate::ints::gap;
use crate::service::next_sequence;
use crate::snapshots::preceding;
use crate::snapshots::preceding_of;
use crate::snapshots::BookSnapshot;
use crate::sorting::law_sorted_is_an_ordered_rearrangement;
use crate::sorting::sorted;
use crate::sorting::SortOrder;
use crate::sorting::stable_sort;
use crate::sorting::LowestFirst;
use vstd::prelude::*;

verus! {

/// How many decisions there are, and how many legs of them snapshots cover.
#[derive(Clone, Copy, Debug, PartialEq, Eq)]
pub struct Summary {
    pub decisions: u64,
    pub eligible_decisions: u64,
    pub legacy_decisions: u64,
    pub both_legs_covered: u64,
    pub one_leg_covered: u64,
    pub no_legs_covered: u64,
    pub median_snapshot_age_ms: Option<u64>,
}

/// Nothing counted yet.
pub open spec fn empty_summary() -> Summary {
    Summary {
        decisions: 0,
        eligible_decisions: 0,
        legacy_decisions: 0,
        both_legs_covered: 0,
        one_leg_covered: 0,
        no_legs_covered: 0,
        median_snapshot_age_ms: None,
    }
}

impl Default for Summary {
    fn default() -> (r: Self)
        ensures
            r == empty_summary(),
    {
        Summary {
            decisions: 0,
            eligible_decisions: 0,
            legacy_decisions: 0,
            both_legs_covered: 0,
            one_leg_covered: 0,
            no_legs_covered: 0,
            median_snapshot_age_ms: None,
        }
    }
}

/// A summary with one more decision: without tokens, or with both legs, one or
/// none of them covered.
pub open spec fn counted(summary: Summary, legs: Option<(bool, bool)>) -> Summary {
    match legs {
        None => Summary {
            decisions: next_sequence(summary.decisions),
            legacy_decisions: next_sequence(summary.legacy_decisions),
            ..summary
        },
        Some((a, b)) => Summary {
            decisions: next_sequence(summary.decisions),
            eligible_decisions: next_sequence(summary.eligible_decisions),
            both_legs_covered: if a && b {
                next_sequence(summary.both_legs_covered)
            } else {
                summary.both_legs_covered
            },
            one_leg_covered: if a != b {
                next_sequence(summary.one_leg_covered)
            } else {
                summary.one_leg_covered
            },
            no_legs_covered: if !a && !b {
                next_sequence(summary.no_legs_covered)
            } else {
                summary.no_legs_covered
            },
            ..summary
        },
    }
}

/// Whether the parts add up: every decision has tokens or not, and every one
/// that has counts for both legs, one leg or none.
pub open spec fn adds_up(summary: Summary) -> bool {
    &&& summary.decisions == summary.eligible_decisions + summary.legacy_decisions
    &&& summary.eligible_decisions == summary.both_legs_covered + summary.one_leg_covered
        + summary.no_legs_covered
}

/// The parts of a summary always add up, as long as it can be counted.
pub proof fn law_counts_add_up(summary: Summary, legs: Option<(bool, bool)>)
    requires
        adds_up(summary),
        summary.decisions < u64::MAX,
    ensures
        adds_up(counted(summary, legs)),
        adds_up(empty_summary()),
{
}

/// The ages with those of the snapshots that were found behind them.
pub open spec fn with_ages(
    ages: Seq<u64>,
    observed_at_ms: i64,
    a: Option<BookSnapshot>,
    b: Option<BookSnapshot>,
) -> Seq<u64> {
    let with_a = match a {
        Some(snapshot) => ages.push(gap(observed_at_ms, snapshot.sampled_at_ms) as u64),
        None => ages,
    };
    match b {
        Some(snapshot) => with_a.push(gap(observed_at_ms, snapshot.sampled_at_ms) as u64),
        None => with_a,
    }
}

/// The middle of the ages, the upper of the middle two.
pub open spec fn median_age(ages: Seq<u64>) -> Option<u64> {
    if ages.len() == 0 {
        None
    } else {
        Some(sorted::<u64, LowestFirst>(ages)[ages.len() as int / 2])
    }
}

/// A summary in the making.
#[derive(Debug)]
pub struct Accumulator {
    pub summary: Summary,
    pub ages: Vec<u64>,
}

impl Default for Accumulator {
    fn default() -> (r: Self)
        ensures
            r.summary == empty_summary(),
            r.ages@ == Seq::<u64>::empty(),
    {
        Accumulator { summary: Summary::default(), ages: Vec::new() }
    }
}

fn one_more(n: u64) -> (r: u64)
    ensures
        r == next_sequence(n),
{
    if n < u64::MAX {
        n + 1
    } else {
        n
    }
}

/// The content of a snapshot that may be missing.
pub open spec fn snapshot_in(snapshot: Option<&BookSnapshot>) -> Option<BookSnapshot> {
    match snapshot {
        Some(s) => Some(*s),
        None => None,
    }
}

impl Accumulator {
    /// Counts a decision, and gives the snapshots that cover its legs.
    pub fn observe<'a>(
        &mut self,
        row: &CalibrationRow,
        snapshots: &'a StringMap<Vec<BookSnapshot>>,
        max_age_ms: u64,
    ) -> (r: (Option<&'a BookSnapshot>, Option<&'a BookSnapshot>))
        ensures
            match (row.token_id_a, row.token_id_b) {
                (Some(token_a), Some(token_b)) => {
                    let a = preceding_of(snapshots@, token_a@, row.observed_at_ms, max_age_ms);
                    let b = preceding_of(snapshots@, token_b@, row.observed_at_ms, max_age_ms);
                    &&& snapshot_in(r.0) == a
                    &&& snapshot_in(r.1) == b
                    &&& final(self).summary == counted(
                        old(self).summary,
                        Some((a is Some, b is Some)),
                    )
                    &&& final(self).ages@ == with_ages(
                        old(self).ages@,
                        row.observed_at_ms,
                        a,
                        b,
                    )
                },
                _ => {
                    &&& r.0 is None && r.1 is None
                    &&& final(self).summary == counted(old(self).summary, None)
                    &&& final(self).ages@ == old(self).ages@
                },
            },
    {
        self.summary.decisions = one_more(self.summary.decisions);
        let (token_a, token_b) = match (&row.token_id_a, &row.token_id_b) {
            (Some(a), Some(b)) => (a, b),
            _ => {
                self.summary.legacy_decisions = one_more(self.summary.legacy_decisions);
                return (None, None);
            },
        };
        self.summary.eligible_decisions = one_more(self.summary.eligible_decisions);
        let a = preceding(snapshots, token_a.as_str(), row.observed_at_ms, max_age_ms);
        let b = preceding(snapshots, token_b.as_str(), row.observed_at_ms, max_age_ms);
        let has_a = a.is_some();
        let has_b = b.is_some();
        if has_a && has_b {
            self.summary.both_legs_covered = one_more(self.summary.both_legs_covered);
        } else if has_a || has_b {
            self.summary.one_leg_covered = one_more(self.summary.one_leg_covered);
        } else {
            self.summary.no_legs_covered = one_more(self.summary.no_legs_covered);
        }
        if let Some(snapshot) = a {
            self.ages.push(distance(row.observed_at_ms, snapshot.sampled_at_ms));
        }
        if let Some(snapshot) = b {
            self.ages.push(distance(row.observed_at_ms, snapshot.sampled_at_ms));
        }
        (a, b)
    }

    /// The summary of what was counted.
    pub fn finish(self) -> (r: Summary)
        ensures
            r == (Summary { median_snapshot_age_ms: median_age(self.ages@), ..self.summary }),
    {
        let mut summary = self.summary;
        let count: usize = self.ages.len();
        let ghost given = self.ages@;
        if count == 0 {
            summary.median_snapshot_age_ms = None;
        } else {
            let ascending = stable_sort::<u64, LowestFirst>(self.ages);
            proof {
                law_sorted_is_an_ordered_rearrangement::<u64, LowestFirst>(given);
            }
            summary.median_snapshot_age_ms = Some(ascending[count / 2]);
        }
        summary
    }
}

/// The summary of several decisions.
pub fn summarize(
    rows: &Vec<CalibrationRow>,
    snapshots: &StringMap<Vec<BookSnapshot>>,
    max_age_ms: u64,
) -> (r: Summary)
    ensures
        ({
            let (summary, ages) = summarized_through(
                rows@,
                snapshots@,
                max_age_ms,
            );
            r == Summary { median_snapshot_age_ms: median_age(ages), ..summary }
        }),
{
    let mut accumulator = Accumulator::default();
    let mut i: usize = 0;
    while i < rows.len()
        invariant
            i <= rows@.len(),
            (accumulator.summary, accumulator.ages@) == summarized_through(
                rows@.take(i as int),
                snapshots@,
                max_age_ms,
            ),
        decreases rows@.len() - i,
    {
        assert(rows@.take(i + 1).drop_last() =~= rows@.take(i as int));
        let _ = accumulator.observe(&rows[i], snapshots, max_age_ms);
        i += 1;
    }
    assert(rows@.take(i as int) =~= rows@);
    accumulator.finish()
}

/// The counts and ages of several decisions, in order.
pub open spec fn summarized_through(
    rows: Seq<CalibrationRow>,
    snapshots: Map<Seq<char>, Vec<BookSnapshot>>,
    max_age_ms: u64,
) -> (Summary, Seq<u64>)
    decreases rows.len(),
{
    if rows.len() == 0 {
        (empty_summary(), Seq::empty())
    } else {
        let row = rows.last();
        let (summary, ages) = summarized_through(rows.drop_last(), snapshots, max_age_ms);
        match (row.token_id_a, row.token_id_b) {
            (Some(token_a), Some(token_b)) => {
                let a = preceding_of(snapshots, token_a@, row.observed_at_ms, max_age_ms);
                let b = preceding_of(snapshots, token_b@, row.observed_at_ms, max_age_ms);
                (
                    counted(summary, Some((a is Some, b is Some))),
                    with_ages(ages, row.observed_at_ms, a, b),
                )
            },
            _ => (counted(summary, None), ages),
        }
    }
}

/// A decision without both tokens counts as one of the past; any other counts by how
/// many of its legs are covered. Nothing else is counted.
pub proof fn law_what_a_decision_counts_as(summary: Summary, a: bool, b: bool)
    requires
        summary.decisions < u64::MAX,
        adds_up(summary),
    ensures
        ({
            let old_style = counted(summary, None);
            let other = counted(summary, Some((a, b)));
            let one_if = |holds: bool|
                if holds {
                    1int
                } else {
                    0
                };
            &&& old_style.decisions == summary.decisions + 1
            &&& old_style.legacy_decisions == summary.legacy_decisions + 1
            &&& old_style.eligible_decisions == summary.eligible_decisions
            &&& old_style.both_legs_covered == summary.both_legs_covered
            &&& old_style.one_leg_covered == summary.one_leg_covered
            &&& old_style.no_legs_covered == summary.no_legs_covered
            &&& other.decisions == summary.decisions + 1
            &&& other.legacy_decisions == summary.legacy_decisions
            &&& other.eligible_decisions == summary.eligible_decisions + 1
            &&& other.both_legs_covered == summary.both_legs_covered + one_if(a && b)
            &&& other.one_leg_covered == summary.one_leg_covered + one_if(a && !b || !a && b)
            &&& other.no_legs_covered == summary.no_legs_covered + one_if(!a && !b)
        }),
{
}

/// Every snapshot that covers a leg adds its age, that of the first leg first.
pub proof fn law_ages_of_the_covering_snapshots(
    ages: Seq<u64>,
    observed_at_ms: i64,
    a: BookSnapshot,
    b: BookSnapshot,
)
    requires
        a.sampled_at_ms <= observed_at_ms,
        b.sampled_at_ms <= observed_at_ms,
    ensures
        ({
            let age_a = (observed_at_ms - a.sampled_at_ms) as u64;
            let age_b = (observed_at_ms - b.sampled_at_ms) as u64;
            &&& with_ages(ages, observed_at_ms, None, None) == ages
            &&& with_ages(ages, observed_at_ms, Some(a), None) == ages.push(age_a)
            &&& with_ages(ages, observed_at_ms, None, Some(b)) == ages.push(age_b)
            &&& with_ages(ages, observed_at_ms, Some(a), Some(b)) == ages.push(age_a).push(age_b)
        }),
{
}

/// The median age stands in the middle of the ages in ascending order, at the upper
/// of two places; there is none without ages.
pub proof fn law_the_median_age(ages: Seq<u64>)
    ensures
        ages.len() == 0 <==> median_age(ages) is None,
        median_age(ages) matches Some(median) ==> exists|ascending: Seq<u64>| #[trigger]
            ascending.to_multiset() == ages.to_multiset() && ascending.len() == ages.len()
                && ascending[ages.len() as int / 2] == median && forall|i: int, j: int|
                0 <= i <= j < ascending.len() ==> ascending[i] <= ascending[j],
{
    law_sorted_is_an_ordered_rearrangement::<u64, LowestFirst>(ages);
    let ascending = sorted::<u64, LowestFirst>(ages);
    assert(ascending.to_multiset() == ages.to_multiset());
    assert forall|i: int, j: int| 0 <= i <= j < ascending.len() implies ascending[i]
        <= ascending[j] by {
        if i < j {
            assert(!LowestFirst::before(ascending[j], ascending[i]));
        }
    }
}

/// A summary takes in decision by decision, each with the snapshots of its own two
/// tokens.
pub proof fn law_summaries_take_in_every_decision(
    rows: Seq<CalibrationRow>,
    row: CalibrationRow,
    snapshots: Map<Seq<char>, Vec<BookSnapshot>>,
    max_age_ms: u64,
)
    ensures
        summarized_through(Seq::empty(), snapshots, max_age_ms).0.decisions == 0,
        summarized_through(Seq::empty(), snapshots, max_age_ms).1.len() == 0,
        ({
            let (summary, ages) = summarized_through(rows, snapshots, max_age_ms);
            let after = summarized_through(rows.push(row), snapshots, max_age_ms);
            if row.token_id_a is Some && row.token_id_b is Some {
                let at = row.observed_at_ms;
                let a = preceding_of(snapshots, row.token_id_a->0@, at, max_age_ms);
                let b = preceding_of(snapshots, row.token_id_b->0@, at, max_age_ms);
                &&& after.0 == counted(summary, Some((a is Some, b is Some)))
                &&& after.1 == with_ages(ages, at, a, b)
            } else {
                after.0 == counted(summary, None) && after.1 == ages
            }
        }),
{
    assert(rows.push(row).drop_last() =~= rows);
}

} // verus!
