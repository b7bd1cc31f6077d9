//! Recorded book snapshots, and how they match recorded decisions.

use crate::collections::text_seq;
use crate::collections::texts_ascend;
use crate::collections::texts_of;
use crate::collections::StringMap;
use crate::collections::StringSet;
use crate::decision_store::CalibrationRow;
use crate::ints::clamped_difference;
use crate::ints::saturating_difference;
use crate::ints::wrap_to_i64;
use crate::ints::wrapped_to_i64;
use vstd::prelude::*;

verus! {

/// A recorded level.
#[derive(Debug, PartialEq, Eq)]
pub struct BookLevel {
    pub price: String,
    pub size: String,
}

/// A recorded book.
#[derive(Debug, PartialEq, Eq)]
pub struct BookSnapshot {
    pub sampled_at_ms: i64,
    pub market_id: String,
    pub token_id: String,
    pub book_updated_at_ms: i64,
    pub bids: Vec<BookLevel>,
    pub asks: Vec<BookLevel>,
}

/// Sampled no later than observed, and not too long before.
pub open spec fn covers(snapshot: BookSnapshot, observed_at_ms: i64, max_age_ms: u64) -> bool {
    &&& snapshot.sampled_at_ms <= observed_at_ms
    &&& clamped_difference(observed_at_ms, snapshot.sampled_at_ms) <= wrapped_to_i64(max_age_ms)
}

/// The position of the snapshot that was sampled last among those that cover an
/// observation; the last of those sampled together.
pub open spec fn latest_covering(
    snapshots: Seq<BookSnapshot>,
    observed_at_ms: i64,
    max_age_ms: u64,
) -> Option<int>
    decreases snapshots.len(),
{
    if snapshots.len() == 0 {
        None
    } else {
        let before = latest_covering(snapshots.drop_last(), observed_at_ms, max_age_ms);
        if covers(snapshots.last(), observed_at_ms, max_age_ms) && (before matches Some(i)
            ==> snapshots[i].sampled_at_ms <= snapshots.last().sampled_at_ms) {
            Some(snapshots.len() - 1)
        } else {
            before
        }
    }
}

/// The snapshot of a token that covers an observation best.
pub open spec fn preceding_of(
    snapshots: Map<Seq<char>, Vec<BookSnapshot>>,
    token: Seq<char>,
    observed_at_ms: i64,
    max_age_ms: u64,
) -> Option<BookSnapshot> {
    if snapshots.contains_key(token) {
        match latest_covering(snapshots[token]@, observed_at_ms, max_age_ms) {
            Some(i) => Some(snapshots[token]@[i]),
            None => None,
        }
    } else {
        None
    }
}

/// The covering snapshot was sampled no later than the observation and within
/// the age limit, and none of the others that were is later; there is one
/// exactly when any covers the observation.
pub proof fn law_nearest_preceding_snapshot(
    snapshots: Seq<BookSnapshot>,
    observed_at_ms: i64,
    max_age_ms: u64,
)
    ensures
        latest_covering(snapshots, observed_at_ms, max_age_ms) matches Some(i) ==> 0 <= i
            < snapshots.len() && covers(snapshots[i], observed_at_ms, max_age_ms) && forall|j: int|
            0 <= j < snapshots.len() && covers(#[trigger] snapshots[j], observed_at_ms, max_age_ms)
                ==> snapshots[j].sampled_at_ms <= snapshots[i].sampled_at_ms,
        latest_covering(snapshots, observed_at_ms, max_age_ms) is None ==> forall|j: int|
            0 <= j < snapshots.len() ==> !covers(
                #[trigger] snapshots[j],
                observed_at_ms,
                max_age_ms,
            ),
    decreases snapshots.len(),
{
    if snapshots.len() > 0 {
        let before = snapshots.drop_last();
        law_nearest_preceding_snapshot(before, observed_at_ms, max_age_ms);
        assert forall|j: int| 0 <= j < before.len() implies #[trigger] snapshots[j] == before[j] by {
        }
    }
}

/// The snapshot that covers an observation best.
pub fn preceding_snapshot<'a>(
    snapshots: Option<&'a Vec<BookSnapshot>>,
    observed_at_ms: i64,
    max_age_ms: u64,
) -> (r: Option<&'a BookSnapshot>)
    ensures
        match r {
            Some(snapshot) => snapshots matches Some(list) && latest_covering(
                list@,
                observed_at_ms,
                max_age_ms,
            ) matches Some(i) && *snapshot == list@[i],
            None => snapshots matches Some(list) ==> latest_covering(
                list@,
                observed_at_ms,
                max_age_ms,
            ) is None,
        },
{
    let list = match snapshots {
        Some(list) => list,
        None => return None,
    };
    let limit: i64 = wrap_to_i64(max_age_ms);
    let mut found: Option<usize> = None;
    let mut i: usize = 0;
    while i < list.len()
        invariant
            i <= list@.len(),
            limit == wrapped_to_i64(max_age_ms),
            match found {
                Some(k) => k < i && latest_covering(
                    list@.take(i as int),
                    observed_at_ms,
                    max_age_ms,
                ) == Some(k as int),
                None => latest_covering(list@.take(i as int), observed_at_ms, max_age_ms) is None,
            },
        decreases list@.len() - i,
    {
        proof {
            assert(list@.take(i + 1).drop_last() =~= list@.take(i as int));
            assert(list@.take(i + 1).last() == list@[i as int]);
            if let Some(k) = found {
                assert(list@.take(i + 1)[k as int] == list@[k as int]);
            }
        }
        let sampled: i64 = list[i].sampled_at_ms;
        if sampled <= observed_at_ms && saturating_difference(observed_at_ms, sampled) <= limit {
            let later = match found {
                Some(k) => list[k].sampled_at_ms <= sampled,
                None => true,
            };
            if later {
                found = Some(i);
            }
        }
        i += 1;
    }
    assert(list@.take(i as int) =~= list@);
    match found {
        Some(k) => Some(&list[k]),
        None => None,
    }
}

/// The snapshot of a token that covers an observation best.
pub fn preceding<'a>(
    snapshots: &'a StringMap<Vec<BookSnapshot>>,
    token: &str,
    observed_at_ms: i64,
    max_age_ms: u64,
) -> (r: Option<&'a BookSnapshot>)
    ensures
        match r {
            Some(snapshot) => preceding_of(snapshots@, token@, observed_at_ms, max_age_ms) == Some(
                *snapshot,
            ),
            None => preceding_of(snapshots@, token@, observed_at_ms, max_age_ms) is None,
        },
{
    preceding_snapshot(snapshots.get(token), observed_at_ms, max_age_ms)
}

// ---------------------------------------------------------------------------
// Asking for snapshots
// ---------------------------------------------------------------------------

/// The tokens that rows name.
pub open spec fn tokens_in(rows: Seq<CalibrationRow>) -> Set<Seq<char>>
    decreases rows.len(),
{
    if rows.len() == 0 {
        Set::empty()
    } else {
        let before = tokens_in(rows.drop_last());
        let with_a = match rows.last().token_id_a {
            Some(token) => before.insert(token@),
            None => before,
        };
        match rows.last().token_id_b {
            Some(token) => with_a.insert(token@),
            None => with_a,
        }
    }
}

/// The earliest time at which a snapshot may cover one of the rows; zero without
/// rows.
pub open spec fn earliest_start(rows: Seq<CalibrationRow>, max_age_ms: u64) -> int
    decreases rows.len(),
{
    if rows.len() == 0 {
        0
    } else {
        let start = clamped_difference(
            rows.last().observed_at_ms,
            wrapped_to_i64(max_age_ms) as i64,
        );
        if rows.len() == 1 || start < earliest_start(rows.drop_last(), max_age_ms) {
            start
        } else {
            earliest_start(rows.drop_last(), max_age_ms)
        }
    }
}

/// When the last of the rows was observed; zero without rows.
pub open spec fn latest_row(rows: Seq<CalibrationRow>) -> int
    decreases rows.len(),
{
    if rows.len() == 0 {
        0
    } else if rows.len() == 1 || rows.last().observed_at_ms > latest_row(rows.drop_last()) {
        rows.last().observed_at_ms as int
    } else {
        latest_row(rows.drop_last())
    }
}

/// Which snapshots to ask for.
#[derive(Debug, PartialEq, Eq)]
pub struct SnapshotWindow {
    pub token_ids: Vec<String>,
    pub from_ms: i64,
    pub to_ms: i64,
}

/// The snapshots that may cover some of the rows: of the tokens that they name,
/// in ascending order and each once, from the earliest to the latest time.
pub fn snapshot_window(rows: &Vec<CalibrationRow>, max_age_ms: u64) -> (r: SnapshotWindow)
    ensures
        texts_of(r.token_ids@) == tokens_in(rows@),
        texts_ascend(text_seq(r.token_ids@)),
        r.from_ms == earliest_start(rows@, max_age_ms),
        r.to_ms == latest_row(rows@),
{
    let limit: i64 = wrap_to_i64(max_age_ms);
    let mut tokens = StringSet::new();
    let mut from_ms: i64 = 0;
    let mut to_ms: i64 = 0;
    let mut i: usize = 0;
    while i < rows.len()
        invariant
            i <= rows@.len(),
            limit == wrapped_to_i64(max_age_ms),
            tokens@ == tokens_in(rows@.take(i as int)),
            from_ms == earliest_start(rows@.take(i as int), max_age_ms),
            to_ms == latest_row(rows@.take(i as int)),
        decreases rows@.len() - i,
    {
        let row = &rows[i];
        assert(rows@.take(i + 1).drop_last() =~= rows@.take(i as int));
        if let Some(token) = &row.token_id_a {
            tokens.insert(token.clone());
        }
        if let Some(token) = &row.token_id_b {
            tokens.insert(token.clone());
        }
        let start: i64 = saturating_difference(row.observed_at_ms, limit);
        if i == 0 || start < from_ms {
            from_ms = start;
        }
        if i == 0 || row.observed_at_ms > to_ms {
            to_ms = row.observed_at_ms;
        }
        i += 1;
    }
    assert(rows@.take(i as int) =~= rows@);
    SnapshotWindow { token_ids: tokens.to_vec(), from_ms, to_ms }
}

/// The snapshots of a token, in order.
pub open spec fn snapshots_of(snapshots: Seq<BookSnapshot>, token: Seq<char>) -> Seq<BookSnapshot>
    decreases snapshots.len(),
{
    if snapshots.len() == 0 {
        snapshots
    } else if snapshots.last().token_id@ == token {
        snapshots_of(snapshots.drop_last(), token).push(snapshots.last())
    } else {
        snapshots_of(snapshots.drop_last(), token)
    }
}

/// Whether a map holds the snapshots of every token, in order.
pub open spec fn groups(
    grouped: Map<Seq<char>, Vec<BookSnapshot>>,
    snapshots: Seq<BookSnapshot>,
) -> bool {
    forall|token: Seq<char>|
        #![trigger grouped.contains_key(token)]
        {
            &&& grouped.contains_key(token) <==> snapshots_of(snapshots, token).len() > 0
            &&& grouped.contains_key(token) ==> grouped[token]@ == snapshots_of(snapshots, token)
        }
}

/// The snapshots of every token, in order.
pub fn group_snapshots(snapshots: Vec<BookSnapshot>) -> (r: StringMap<Vec<BookSnapshot>>)
    ensures
        groups(r@, snapshots@),
{
    let mut grouped: StringMap<Vec<BookSnapshot>> = StringMap::new();
    let ghost all = snapshots@;
    for snapshot in it: snapshots
        invariant
            it.seq() == all,
            groups(grouped@, all.take(it.index() as int)),
    {
        let ghost i = it.index() as int;
        let ghost before = grouped@;
        let token = snapshot.token_id.clone();
        let mut list = match grouped.remove(token.as_str()) {
            Some(list) => list,
            None => Vec::new(),
        };
        list.push(snapshot);
        grouped.insert(token, list);
        proof {
            assert(all.take(i + 1).drop_last() =~= all.take(i));
            assert forall|t: Seq<char>|
                #![trigger grouped@.contains_key(t)]
                {
                    &&& grouped@.contains_key(t) <==> snapshots_of(all.take(i + 1), t).len() > 0
                    &&& grouped@.contains_key(t) ==> grouped@[t]@ == snapshots_of(
                        all.take(i + 1),
                        t,
                    )
                } by {
                assert(before.contains_key(t) <==> snapshots_of(all.take(i), t).len() > 0);
                if t == token@ && !before.contains_key(t) {
                    assert(snapshots_of(all.take(i), t) =~= Seq::<BookSnapshot>::empty());
                }
            }
        }
    }
    assert(all.take(all.len() as int) =~= all);
    grouped
}

// ---------------------------------------------------------------------------
// Laws
// ---------------------------------------------------------------------------

/// A snapshot covers an observation exactly when it was sampled at most so long
/// before it, and not after it.
pub proof fn law_when_a_snapshot_covers(
    snapshot: BookSnapshot,
    observed_at_ms: i64,
    max_age_ms: u64,
)
    requires
        max_age_ms < i64::MAX,
    ensures
        covers(snapshot, observed_at_ms, max_age_ms) <==> 0 <= observed_at_ms
            - snapshot.sampled_at_ms <= max_age_ms,
{
}

/// Of the snapshots that cover an observation and were sampled together, the last
/// one is taken.
pub proof fn law_the_last_of_those_sampled_together(
    snapshots: Seq<BookSnapshot>,
    observed_at_ms: i64,
    max_age_ms: u64,
    j: int,
)
    requires
        0 <= j < snapshots.len(),
        covers(snapshots[j], observed_at_ms, max_age_ms),
    ensures
        latest_covering(snapshots, observed_at_ms, max_age_ms) matches Some(i) && (
        snapshots[j].sampled_at_ms < snapshots[i].sampled_at_ms || (snapshots[j].sampled_at_ms
            == snapshots[i].sampled_at_ms && j <= i)),
    decreases snapshots.len(),
{
    let before = snapshots.drop_last();
    law_nearest_preceding_snapshot(before, observed_at_ms, max_age_ms);
    law_nearest_preceding_snapshot(snapshots, observed_at_ms, max_age_ms);
    if j < before.len() {
        assert(before[j] == snapshots[j]);
        law_the_last_of_those_sampled_together(before, observed_at_ms, max_age_ms, j);
        let i = latest_covering(before, observed_at_ms, max_age_ms)->0;
        assert(before[i] == snapshots[i]);
    }
}

/// The snapshot of a token is looked for among those of the same token.
pub proof fn law_snapshots_are_those_of_the_token(
    snapshots: Map<Seq<char>, Vec<BookSnapshot>>,
    token: Seq<char>,
    observed_at_ms: i64,
    max_age_ms: u64,
)
    ensures
        !snapshots.contains_key(token) ==> preceding_of(
            snapshots,
            token,
            observed_at_ms,
            max_age_ms,
        ) is None,
        snapshots.contains_key(token) ==> match (
            preceding_of(snapshots, token, observed_at_ms, max_age_ms),
            latest_covering(snapshots[token]@, observed_at_ms, max_age_ms),
        ) {
            (Some(snapshot), Some(i)) => snapshot == snapshots[token]@[i],
            (None, None) => true,
            _ => false,
        },
{
}

/// Whether a row names a token.
pub open spec fn names(row: CalibrationRow, token: Seq<char>) -> bool {
    (row.token_id_a matches Some(a) && a@ == token) || (row.token_id_b matches Some(b) && b@
        == token)
}

/// What is asked for are the tokens that some row names, whichever of its two.
pub proof fn law_tokens_that_rows_name(rows: Seq<CalibrationRow>, token: Seq<char>)
    ensures
        tokens_in(rows).contains(token) <==> exists|i: int|
            0 <= i < rows.len() && names(#[trigger] rows[i], token),
    decreases rows.len(),
{
    if rows.len() > 0 {
        let before = rows.drop_last();
        law_tokens_that_rows_name(before, token);
        assert(rows[rows.len() - 1] == rows.last());
        assert(forall|i: int| 0 <= i < before.len() ==> #[trigger] before[i] == rows[i]);
        assert(forall|i: int| 0 <= i < before.len() ==> before[i] == #[trigger] rows[i]);
    }
}

/// What is asked for spans every row and the time before it in which a snapshot may
/// cover it, and no more than that.
pub proof fn law_the_window_spans_the_rows(rows: Seq<CalibrationRow>, max_age_ms: u64)
    requires
        rows.len() > 0,
        max_age_ms <= i64::MAX,
    ensures
        forall|i: int|
            0 <= i < rows.len() ==> latest_row(rows) >= (#[trigger] rows[i]).observed_at_ms && (
            earliest_start(rows, max_age_ms) <= rows[i].observed_at_ms - max_age_ms
                || earliest_start(rows, max_age_ms) == i64::MIN),
        exists|i: int|
            0 <= i < rows.len() && (#[trigger] rows[i]).observed_at_ms == latest_row(rows),
        exists|i: int|
            0 <= i < rows.len() && earliest_start(rows, max_age_ms) == clamped_difference(
                (#[trigger] rows[i]).observed_at_ms,
                max_age_ms as i64,
            ),
        earliest_start(rows, max_age_ms) >= i64::MIN,
    decreases rows.len(),
{
    let before = rows.drop_last();
    assert(rows[rows.len() - 1] == rows.last());
    if rows.len() > 1 {
        law_the_window_spans_the_rows(before, max_age_ms);
        let i = choose|i: int|
            0 <= i < before.len() && (#[trigger] before[i]).observed_at_ms == latest_row(before);
        assert(rows[i] == before[i]);
        let j = choose|j: int|
            0 <= j < before.len() && earliest_start(before, max_age_ms) == clamped_difference(
                (#[trigger] before[j]).observed_at_ms,
                max_age_ms as i64,
            );
        assert(rows[j] == before[j]);
        assert(forall|i: int| 0 <= i < before.len() ==> before[i] == #[trigger] rows[i]);
    }
}

/// The snapshots of a token are all that carry its identifier, in their order.
pub proof fn law_the_snapshots_of_a_token(snapshots: Seq<BookSnapshot>, token: Seq<char>)
    ensures
        snapshots_of(snapshots, token) == snapshots.filter(
            |s: BookSnapshot| s.token_id@ == token,
        ),
    decreases snapshots.len(),
{
    reveal(Seq::filter);
    if snapshots.len() > 0 {
        law_the_snapshots_of_a_token(snapshots.drop_last(), token);
    } else {
        assert(snapshots_of(snapshots, token) =~= snapshots.filter(
            |s: BookSnapshot| s.token_id@ == token,
        ));
    }
}

} // verus!
