//! Spreading subscribed assets over connections.

use crate::collections::has_key;
use crate::collections::key_position;
use crate::collections::text_seq;
use crate::collections::texts_of;
use crate::collections::StringMap;
use crate::collections::StringSet;
use crate::error::StrategyError;
use vstd::prelude::*;

verus! {

/// The assets on a shard.
pub open spec fn on_shard(assigned: Map<Seq<char>, usize>, shard: int) -> Set<Seq<char>> {
    assigned.dom().filter(|asset: Seq<char>| assigned[asset] == shard)
}

/// Whether a shard has room for so many assets more.
pub open spec fn has_room(
    assigned: Map<Seq<char>, usize>,
    shard: int,
    more: nat,
    max_per_shard: usize,
) -> bool {
    on_shard(assigned, shard).len() + more <= max_per_shard
}

/// The first shard from `i` on that has room.
pub open spec fn first_with_room(
    assigned: Map<Seq<char>, usize>,
    i: int,
    shard_count: usize,
    more: nat,
    max_per_shard: usize,
) -> Option<int>
    decreases shard_count - i,
{
    if i >= shard_count {
        None
    } else if has_room(assigned, i, more, max_per_shard) {
        Some(i)
    } else {
        first_with_room(assigned, i + 1, shard_count, more, max_per_shard)
    }
}

/// The `k`-th pair of assets; a last odd one stands alone.
pub open spec fn pair_at(ids: Seq<Seq<char>>, k: int) -> Seq<Seq<char>> {
    if 2 * k + 2 <= ids.len() {
        seq![ids[2 * k], ids[2 * k + 1]]
    } else {
        seq![ids[2 * k]]
    }
}

/// The shard of the first asset of a pair that has one.
pub open spec fn preferred_shard(assigned: Map<Seq<char>, usize>, pair: Seq<Seq<char>>) -> Option<
    int,
> {
    if assigned.contains_key(pair[0]) {
        Some(assigned[pair[0]] as int)
    } else if pair.len() > 1 && assigned.contains_key(pair[1]) {
        Some(assigned[pair[1]] as int)
    } else {
        None
    }
}

/// Where a pair goes: to where one of it is already, if there is room, and else
/// to the first shard with room.
pub open spec fn chosen_shard(
    assigned: Map<Seq<char>, usize>,
    pair: Seq<Seq<char>>,
    shard_count: usize,
    max_per_shard: usize,
) -> Option<int> {
    let preferred = preferred_shard(assigned, pair);
    if preferred is Some && has_room(assigned, preferred->0, pair.len(), max_per_shard) {
        preferred
    } else {
        first_with_room(assigned, 0, shard_count, pair.len(), max_per_shard)
    }
}

/// The assignment with an asset put on a shard, unless it has one.
pub open spec fn placed(assigned: Map<Seq<char>, usize>, asset: Seq<char>, shard: int) -> Map<
    Seq<char>,
    usize,
> {
    if assigned.contains_key(asset) {
        assigned
    } else {
        assigned.insert(asset, shard as usize)
    }
}

/// Whether every asset of a pair has a shard.
pub open spec fn is_assigned(assigned: Map<Seq<char>, usize>, pair: Seq<Seq<char>>) -> bool {
    assigned.contains_key(pair[0]) && (pair.len() > 1 ==> assigned.contains_key(pair[1]))
}

/// The assignment with a pair in it; `None` where no shard has room.
pub open spec fn pair_assigned(
    assigned: Map<Seq<char>, usize>,
    pair: Seq<Seq<char>>,
    shard_count: usize,
    max_per_shard: usize,
) -> Option<Map<Seq<char>, usize>> {
    if is_assigned(assigned, pair) {
        Some(assigned)
    } else {
        match chosen_shard(assigned, pair, shard_count, max_per_shard) {
            Some(shard) => {
                let first = placed(assigned, pair[0], shard);
                if pair.len() > 1 {
                    Some(placed(first, pair[1], shard))
                } else {
                    Some(first)
                }
            },
            None => None,
        }
    }
}

/// How many pairs there are.
pub open spec fn pair_count(ids: Seq<Seq<char>>) -> int {
    (ids.len() as int + 1) / 2
}

/// The assignment with the first pairs in it, up to one for which no shard has
/// room; and whether there was none such.
pub open spec fn assigned_through(
    assigned: Map<Seq<char>, usize>,
    ids: Seq<Seq<char>>,
    pairs: int,
    shard_count: usize,
    max_per_shard: usize,
) -> (Map<Seq<char>, usize>, bool)
    decreases pairs,
{
    if pairs <= 0 {
        (assigned, true)
    } else {
        let (before, fits) = assigned_through(assigned, ids, pairs - 1, shard_count, max_per_shard);
        if !fits {
            (before, false)
        } else {
            match pair_assigned(before, pair_at(ids, pairs - 1), shard_count, max_per_shard) {
                Some(after) => (after, true),
                None => (before, false),
            }
        }
    }
}

/// Which asset is on which connection.
#[derive(Debug)]
pub struct ShardAssignments {
    shard_count: usize,
    max_per_shard: usize,
    max_total: usize,
    assigned_shard: StringMap<usize>,
}

/// Whether every shard in an assignment exists.
pub open spec fn uses_shards(assigned: Map<Seq<char>, usize>, shard_count: usize) -> bool {
    forall|asset: Seq<char>| #[trigger]
        assigned.contains_key(asset) ==> assigned[asset] < shard_count
}

/// The shards of an assignment.
pub open spec fn shards_show(
    shards: Seq<StringSet>,
    assigned: Map<Seq<char>, usize>,
    shard_count: usize,
) -> bool {
    &&& shards.len() == shard_count
    &&& forall|i: int| 0 <= i < shard_count ==> (#[trigger] shards[i])@ == on_shard(assigned, i)
}

fn find_room(shards: &Vec<StringSet>, Ghost(assigned): Ghost<Map<Seq<char>, usize>>, more: usize, max_per_shard: usize) -> (r:
    Option<usize>)
    requires
        shards_show(shards@, assigned, shards@.len() as usize),
        shards@.len() <= usize::MAX,
    ensures
        match r {
            Some(i) => i < shards@.len() && first_with_room(
                assigned,
                0,
                shards@.len() as usize,
                more as nat,
                max_per_shard,
            ) == Some(i as int),
            None => first_with_room(
                assigned,
                0,
                shards@.len() as usize,
                more as nat,
                max_per_shard,
            ) is None,
        },
{
    let count: usize = shards.len();
    let mut i: usize = 0;
    while i < count
        invariant
            i <= count,
            count == shards@.len(),
            shards_show(shards@, assigned, count),
            first_with_room(assigned, 0, count, more as nat, max_per_shard) == first_with_room(
                assigned,
                i as int,
                count,
                more as nat,
                max_per_shard,
            ),
        decreases count - i,
    {
        let load: usize = shards[i].len();
        if load <= max_per_shard && more <= max_per_shard - load {
            return Some(i);
        }
        i += 1;
    }
    None
}

proof fn lemma_placed(assigned: Map<Seq<char>, usize>, asset: Seq<char>, shard: usize, i: int)
    requires
        !assigned.contains_key(asset),
    ensures
        on_shard(assigned.insert(asset, shard), i) == if i == shard {
            on_shard(assigned, i).insert(asset)
        } else {
            on_shard(assigned, i)
        },
{
    let after = assigned.insert(asset, shard);
    if i == shard {
        assert(on_shard(after, i) =~= on_shard(assigned, i).insert(asset));
    } else {
        assert(on_shard(after, i) =~= on_shard(assigned, i));
    }
}

fn place(assigned: &mut StringMap<usize>, shards: &mut Vec<StringSet>, asset: &String, shard: usize)
    requires
        shard < old(shards)@.len(),
        shards_show(old(shards)@, old(assigned)@, old(shards)@.len() as usize),
        uses_shards(old(assigned)@, old(shards)@.len() as usize),
        old(shards)@.len() <= usize::MAX,
    ensures
        final(assigned)@ == placed(old(assigned)@, asset@, shard as int),
        final(shards)@.len() == old(shards)@.len(),
        shards_show(final(shards)@, final(assigned)@, final(shards)@.len() as usize),
        uses_shards(final(assigned)@, final(shards)@.len() as usize),
{
    if assigned.contains_key(asset.as_str()) {
        return ;
    }
    let ghost before = assigned@;
    let ghost held = shards@;
    assigned.insert(asset.clone(), shard);
    shards[shard].insert(asset.clone());
    proof {
        assert forall|i: int| 0 <= i < shards@.len() implies (#[trigger] shards@[i])@ == on_shard(
            assigned@,
            i,
        ) by {
            lemma_placed(before, asset@, shard, i);
            if i != shard {
                assert(shards@[i] == held[i]);
            }
        }
    }
}

/// The shards that an assignment fills.
fn fill_shards(assigned: &StringMap<usize>, shard_count: usize) -> (r: Vec<StringSet>)
    requires
        uses_shards(assigned@, shard_count),
    ensures
        shards_show(r@, assigned@, shard_count),
{
    let mut shards: Vec<StringSet> = Vec::new();
    let mut n: usize = 0;
    while n < shard_count
        invariant
            n <= shard_count,
            shards@.len() == n,
            forall|i: int| 0 <= i < n ==> (#[trigger] shards@[i])@ == Set::<Seq<char>>::empty(),
        decreases shard_count - n,
    {
        shards.push(StringSet::new());
        n += 1;
    }
    let ghost pairs = assigned.pairs();
    let mut j: usize = 0;
    while j < assigned.len()
        invariant
            j <= pairs.len(),
            pairs == assigned.pairs(),
            uses_shards(assigned@, shard_count),
            shards@.len() == shard_count,
            forall|i: int, asset: Seq<char>|
                0 <= i < shard_count ==> (#[trigger] (#[trigger] shards@[i])@.contains(asset)
                    <==> is_listed(pairs, j as int, asset, i)),
        decreases pairs.len() - j,
    {
        proof {
            use_type_invariant(assigned);
            assert(has_key(pairs, pairs[j as int].0));
            crate::collections::lemma_pairs_show_map(pairs, j as int);
            assert(assigned@.contains_key(pairs[j as int].0));
        }
        let shard: usize = *assigned.value_at(j);
        let ghost held = shards@;
        shards[shard].insert(assigned.key_at(j).clone());
        proof {
            assert forall|i: int, asset: Seq<char>| 0 <= i < shard_count implies (
            #[trigger] (#[trigger] shards@[i])@.contains(asset) <==> is_listed(
                pairs,
                j + 1,
                asset,
                i,
            )) by {
                if is_listed(pairs, j as int, asset, i) {
                    let k = choose|k: int|
                        0 <= k < j && (#[trigger] pairs[k]).0 == asset && pairs[k].1 == i;
                    assert(pairs[k].0 == asset);
                }
                if is_listed(pairs, j + 1, asset, i) {
                    let k = choose|k: int|
                        0 <= k < j + 1 && (#[trigger] pairs[k]).0 == asset && pairs[k].1 == i;
                    if k < j {
                        assert(is_listed(pairs, j as int, asset, i));
                    }
                }
                assert(held[i]@.contains(asset) <==> is_listed(pairs, j as int, asset, i));
                if i != shard {
                    assert(shards@[i] == held[i]);
                } else {
                    assert(pairs[j as int].1 == i);
                    assert(asset == pairs[j as int].0 ==> is_listed(pairs, j + 1, asset, i));
                }
            }
        }
        j += 1;
    }
    proof {
        use_type_invariant(assigned);
        assert forall|i: int| 0 <= i < shard_count implies (#[trigger] shards@[i])@ == on_shard(
            assigned@,
            i,
        ) by {
            assert forall|asset: Seq<char>| shards@[i]@.contains(asset) <==> on_shard(
                assigned@,
                i,
            ).contains(asset) by {
                if shards@[i]@.contains(asset) {
                    let k = choose|k: int|
                        0 <= k < pairs.len() && (#[trigger] pairs[k]).0 == asset && pairs[k].1
                            == i;
                    crate::collections::lemma_pairs_show_map(pairs, k);
                }
                if on_shard(assigned@, i).contains(asset) {
                    let k = key_position(pairs, asset);
                    assert(pairs[k].0 == asset);
                    crate::collections::lemma_pairs_show_map(pairs, k);
                    assert(is_listed(pairs, pairs.len() as int, asset, i));
                }
            }
            assert(shards@[i]@ =~= on_shard(assigned@, i));
        }
    }
    shards
}

spec fn is_listed(pairs: Seq<(Seq<char>, usize)>, n: int, asset: Seq<char>, shard: int) -> bool {
    exists|k: int| 0 <= k < n && (#[trigger] pairs[k]).0 == asset && pairs[k].1 == shard
}

proof fn lemma_failure_stays(
    assigned: Map<Seq<char>, usize>,
    ids: Seq<Seq<char>>,
    n: int,
    pairs: int,
    shard_count: usize,
    max_per_shard: usize,
)
    requires
        0 <= n <= pairs,
        !assigned_through(assigned, ids, n, shard_count, max_per_shard).1,
    ensures
        assigned_through(assigned, ids, pairs, shard_count, max_per_shard) == assigned_through(
            assigned,
            ids,
            n,
            shard_count,
            max_per_shard,
        ),
    decreases pairs,
{
    if n < pairs {
        lemma_failure_stays(assigned, ids, n, pairs - 1, shard_count, max_per_shard);
    }
}

impl ShardAssignments {
    /// The shard of every assigned asset.
    pub closed spec fn assigned(self) -> Map<Seq<char>, usize> {
        self.assigned_shard@
    }

    /// How many shards there are, how many assets each takes, and how many there
    /// may be.
    pub closed spec fn limits(self) -> (usize, usize, usize) {
        (self.shard_count, self.max_per_shard, self.max_total)
    }

    #[verifier::type_invariant]
    spec fn shards_exist(self) -> bool {
        uses_shards(self.assigned_shard@, self.shard_count)
    }

    /// No asset assigned yet.
    pub fn new(shard_count: usize, max_per_shard: usize, max_total: usize) -> (r: Self)
        ensures
            r.limits() == (shard_count, max_per_shard, max_total),
            r.assigned() == Map::<Seq<char>, usize>::empty(),
    {
        ShardAssignments {
            shard_count,
            max_per_shard,
            max_total,
            assigned_shard: StringMap::new(),
        }
    }

    /// Assigns the wanted assets, given in pairs, to shards. Assets that are no
    /// longer wanted are forgotten, those that have a shard keep it, and the
    /// assets of a new pair go to one shard.
    pub fn assign(&mut self, asset_ids: &Vec<String>) -> (r: Result<Vec<StringSet>, StrategyError>)
        ensures
            final(self).limits() == old(self).limits(),
            ({
                let (shard_count, max_per_shard, max_total) = old(self).limits();
                let ids = text_seq(asset_ids@);
                let (assigned, fits) = assigned_through(
                    old(self).assigned().restrict(texts_of(asset_ids@)),
                    ids,
                    pair_count(ids),
                    shard_count,
                    max_per_shard,
                );
                if ids.len() > max_total {
                    &&& r == Err::<Vec<StringSet>, StrategyError>(
                        StrategyError::TooManyAssets { count: asset_ids.len(), maximum: max_total },
                    )
                    &&& final(self).assigned() == old(self).assigned()
                } else {
                    &&& final(self).assigned() == assigned
                    &&& match r {
                        Ok(shards) => fits && shards_show(shards@, assigned, shard_count),
                        Err(e) => !fits && e == StrategyError::NoShardCapacity,
                    }
                }
            }),
    {
        let length: usize = asset_ids.len();
        if length > self.max_total {
            return Err(
                StrategyError::TooManyAssets { count: length, maximum: self.max_total },
            );
        }
        proof {
            use_type_invariant(&*self);
        }
        let shard_count: usize = self.shard_count;
        let max_per_shard: usize = self.max_per_shard;
        let target = StringSet::of(asset_ids);
        let mut assigned: StringMap<usize> = StringMap::new();
        std::mem::swap(&mut assigned, &mut self.assigned_shard);
        assigned.retain(&target);
        let ghost start = assigned@;
        let ghost ids = text_seq(asset_ids@);
        let mut shards = fill_shards(&assigned, shard_count);
        let mut full = false;
        let mut i: usize = 0;
        let ghost mut n: int = 0;
        while i < length && !full
            invariant
                length == asset_ids@.len(),
                ids == text_seq(asset_ids@),
                i <= length,
                0 <= n <= pair_count(ids),
                i == 2 * n || (i == length && n == pair_count(ids)) || full,
                uses_shards(assigned@, shard_count),
                shards_show(shards@, assigned@, shard_count),
                assigned_through(start, ids, n, shard_count, max_per_shard) == (assigned@, !full),
            decreases length - i + (if full { 0int } else { 1int }),
        {
            let two = length - i > 1;
            let more: usize = if two {
                2
            } else {
                1
            };
            let ghost pair = pair_at(ids, n);
            let ghost before = assigned@;
            let first = assigned.get(asset_ids[i].as_str());
            let second = if two {
                assigned.get(asset_ids[i + 1].as_str())
            } else {
                None
            };
            let preferred: Option<usize> = match (first, second) {
                (Some(s), _) => Some(*s),
                (None, Some(s)) => Some(*s),
                (None, None) => None,
            };
            let done = first.is_some() && (!two || second.is_some());
            proof {
                assert(pair[0] == asset_ids@[i as int]@);
                if two {
                    assert(pair[1] == asset_ids@[i + 1]@);
                }
                assert(assigned_through(start, ids, n + 1, shard_count, max_per_shard) == (
                match pair_assigned(before, pair, shard_count, max_per_shard) {
                    Some(after) => (after, true),
                    None => (before, false),
                }));
            }
            if !done {
                let fitting: Option<usize> = match preferred {
                    Some(s) => {
                        let load: usize = shards[s].len();
                        if load <= max_per_shard && more <= max_per_shard - load {
                            Some(s)
                        } else {
                            find_room(&shards, Ghost(assigned@), more, max_per_shard)
                        }
                    },
                    None => find_room(&shards, Ghost(assigned@), more, max_per_shard),
                };
                match fitting {
                    Some(shard) => {
                        place(&mut assigned, &mut shards, &asset_ids[i], shard);
                        if two {
                            place(&mut assigned, &mut shards, &asset_ids[i + 1], shard);
                        }
                    },
                    None => {
                        full = true;
                    },
                }
            }
            if !full {
                i = if two {
                    i + 2
                } else {
                    length
                };
            }
            proof {
                n = n + 1;
            }
        }
        self.assigned_shard = assigned;
        proof {
            if full {
                lemma_failure_stays(start, ids, n, pair_count(ids), shard_count, max_per_shard);
            }
        }
        if full {
            Err(StrategyError::NoShardCapacity)
        } else {
            Ok(shards)
        }
    }
}

// ---------------------------------------------------------------------------
// Laws
// ---------------------------------------------------------------------------

/// Whether `after` holds everything that `before` holds.
pub open spec fn extends(after: Map<Seq<char>, usize>, before: Map<Seq<char>, usize>) -> bool {
    forall|asset: Seq<char>| #[trigger]
        before.contains_key(asset) ==> after.contains_key(asset) && after[asset] == before[asset]
}

proof fn lemma_pair_step(
    before: Map<Seq<char>, usize>,
    pair: Seq<Seq<char>>,
    shard_count: usize,
    max_per_shard: usize,
)
    requires
        1 <= pair.len() <= 2,
    ensures
        pair_assigned(before, pair, shard_count, max_per_shard) matches Some(after) ==> {
            &&& extends(after, before)
            &&& is_assigned(after, pair)
            &&& forall|asset: Seq<char>| #[trigger]
                after.contains_key(asset) ==> before.contains_key(asset) || pair.contains(asset)
        },
{
    if pair_assigned(before, pair, shard_count, max_per_shard) is Some && !is_assigned(
        before,
        pair,
    ) {
        let after = pair_assigned(before, pair, shard_count, max_per_shard)->0;
        assert(pair[0] == pair.first());
        assert forall|asset: Seq<char>| #[trigger] after.contains_key(asset) implies
            before.contains_key(asset) || pair.contains(asset) by {
            if asset == pair[0] {
                assert(pair.contains(asset));
            } else if pair.len() > 1 && asset == pair[1] {
                assert(pair.contains(asset));
            }
        }
    }
}

/// Assets that have a shard keep it; only wanted assets get one; and when all
/// fit, every wanted asset has one.
pub proof fn law_assignments_are_stable_and_complete(
    start: Map<Seq<char>, usize>,
    ids: Seq<Seq<char>>,
    pairs: int,
    shard_count: usize,
    max_per_shard: usize,
)
    requires
        0 <= pairs <= pair_count(ids),
    ensures
        ({
            let (assigned, fits) = assigned_through(start, ids, pairs, shard_count, max_per_shard);
            &&& extends(assigned, start)
            &&& forall|asset: Seq<char>| #[trigger]
                assigned.contains_key(asset) ==> start.contains_key(asset) || ids.take(
                    if 2 * pairs < ids.len() {
                        2 * pairs
                    } else {
                        ids.len() as int
                    },
                ).contains(asset)
            &&& fits ==> forall|i: int|
                0 <= i < ids.len() && i < 2 * pairs ==> assigned.contains_key(#[trigger] ids[i])
        }),
    decreases pairs,
{
    if pairs > 0 {
        let k = pairs - 1;
        law_assignments_are_stable_and_complete(start, ids, k, shard_count, max_per_shard);
        let (before, fitted) = assigned_through(start, ids, k, shard_count, max_per_shard);
        let (assigned, fits) = assigned_through(start, ids, pairs, shard_count, max_per_shard);
        let pair = pair_at(ids, k);
        lemma_pair_step(before, pair, shard_count, max_per_shard);
        let reach = if 2 * pairs < ids.len() {
            2 * pairs
        } else {
            ids.len() as int
        };
        let head = ids.take(reach);
        assert forall|asset: Seq<char>| #[trigger] assigned.contains_key(asset) implies
            start.contains_key(asset) || head.contains(asset) by {
            if before.contains_key(asset) {
                if !start.contains_key(asset) {
                    let part = ids.take(2 * k);
                    let i = choose|i: int| 0 <= i < part.len() && part[i] == asset;
                    assert(head[i] == asset);
                }
            } else {
                let i = choose|i: int| 0 <= i < pair.len() && pair[i] == asset;
                assert(head[2 * k + i] == asset);
            }
        }
        if fits {
            assert forall|i: int| 0 <= i < ids.len() && i < 2 * pairs implies assigned.contains_key(
                #[trigger] ids[i],
            ) by {
                if i >= 2 * k {
                    assert(pair[i - 2 * k] == ids[i]);
                }
            }
        }
    }
}

/// Whether every pair is on one shard, or has none.
pub open spec fn keeps_pairs_together(assigned: Map<Seq<char>, usize>, ids: Seq<Seq<char>>) -> bool {
    forall|k: int|
        #![trigger ids[2 * k]]
        0 <= k && 2 * k + 1 < ids.len() ==> {
            ||| assigned.contains_key(ids[2 * k]) && assigned.contains_key(ids[2 * k + 1])
                && assigned[ids[2 * k]] == assigned[ids[2 * k + 1]]
            ||| !assigned.contains_key(ids[2 * k]) && !assigned.contains_key(ids[2 * k + 1])
        }
}

/// Distinct assets that are not split already are not split by an assignment either,
/// however many pairs of them fit: both of a pair are on one shard, or neither has
/// one.
pub proof fn law_pairs_are_never_split(
    start: Map<Seq<char>, usize>,
    ids: Seq<Seq<char>>,
    pairs: int,
    shard_count: usize,
    max_per_shard: usize,
)
    requires
        0 <= pairs <= pair_count(ids),
        ids.no_duplicates(),
        keeps_pairs_together(start, ids),
    ensures
        keeps_pairs_together(
            assigned_through(start, ids, pairs, shard_count, max_per_shard).0,
            ids,
        ),
    decreases pairs,
{
    if pairs > 0 {
        let k = pairs - 1;
        law_pairs_are_never_split(start, ids, k, shard_count, max_per_shard);
        let (before, fitted) = assigned_through(start, ids, k, shard_count, max_per_shard);
        let (assigned, fits) = assigned_through(start, ids, pairs, shard_count, max_per_shard);
        let pair = pair_at(ids, k);
        lemma_pair_step(before, pair, shard_count, max_per_shard);
        assert forall|j: int|
            #![trigger ids[2 * j]]
            0 <= j && 2 * j + 1 < ids.len() implies {
            ||| assigned.contains_key(ids[2 * j]) && assigned.contains_key(ids[2 * j + 1])
                && assigned[ids[2 * j]] == assigned[ids[2 * j + 1]]
            ||| !assigned.contains_key(ids[2 * j]) && !assigned.contains_key(ids[2 * j + 1])
        } by {
            let a = ids[2 * j];
            let b = ids[2 * j + 1];
            assert(a != b);
            if j != k {
                assert(!pair.contains(a)) by {
                    if pair.contains(a) {
                        let i = choose|i: int| 0 <= i < pair.len() && pair[i] == a;
                        assert(ids[2 * k + i] == a);
                    }
                }
                assert(!pair.contains(b)) by {
                    if pair.contains(b) {
                        let i = choose|i: int| 0 <= i < pair.len() && pair[i] == b;
                        assert(ids[2 * k + i] == b);
                    }
                }
            } else {
                assert(pair[0] == a && pair[1] == b);
            }
        }
    }
}

/// Distinct assets that are not split already end up with both of every pair on
/// one shard.
pub proof fn law_pairs_share_a_shard(
    start: Map<Seq<char>, usize>,
    ids: Seq<Seq<char>>,
    shard_count: usize,
    max_per_shard: usize,
    k: int,
)
    requires
        ids.no_duplicates(),
        keeps_pairs_together(start, ids),
        assigned_through(start, ids, pair_count(ids), shard_count, max_per_shard).1,
        0 <= k,
        2 * k + 1 < ids.len(),
    ensures
        ({
            let assigned = assigned_through(
                start,
                ids,
                pair_count(ids),
                shard_count,
                max_per_shard,
            ).0;
            &&& assigned.contains_key(ids[2 * k])
            &&& assigned.contains_key(ids[2 * k + 1])
            &&& assigned[ids[2 * k]] == assigned[ids[2 * k + 1]]
        }),
{
    law_pairs_are_never_split(start, ids, pair_count(ids), shard_count, max_per_shard);
    law_assignments_are_stable_and_complete(
        start,
        ids,
        pair_count(ids),
        shard_count,
        max_per_shard,
    );
    assert(ids[2 * k] == ids[2 * k]);
}

/// Whether no shard holds more than it takes.
pub open spec fn within_capacity(assigned: Map<Seq<char>, usize>, max_per_shard: usize) -> bool {
    forall|shard: int| #[trigger] on_shard(assigned, shard).len() <= max_per_shard
}

proof fn lemma_placed_load(assigned: Map<Seq<char>, usize>, asset: Seq<char>, shard: usize)
    requires
        assigned.dom().finite(),
    ensures
        placed(assigned, asset, shard as int).dom().finite(),
        forall|i: int|
            i != shard ==> #[trigger] on_shard(placed(assigned, asset, shard as int), i) == on_shard(
                assigned,
                i,
            ),
        on_shard(placed(assigned, asset, shard as int), shard as int).len() <= on_shard(
            assigned,
            shard as int,
        ).len() + 1,
{
    if !assigned.contains_key(asset) {
        assert forall|i: int| i != shard implies #[trigger] on_shard(
            placed(assigned, asset, shard as int),
            i,
        ) == on_shard(assigned, i) by {
            lemma_placed(assigned, asset, shard, i);
        }
        lemma_placed(assigned, asset, shard, shard as int);
        assert(on_shard(assigned, shard as int).finite());
    }
}

proof fn lemma_room_is_in_range(
    assigned: Map<Seq<char>, usize>,
    i: int,
    shard_count: usize,
    more: nat,
    max_per_shard: usize,
)
    requires
        0 <= i,
    ensures
        first_with_room(assigned, i, shard_count, more, max_per_shard) matches Some(s) ==> 0 <= s
            < shard_count && has_room(assigned, s, more, max_per_shard),
    decreases shard_count - i,
{
    if i < shard_count && !has_room(assigned, i, more, max_per_shard) {
        lemma_room_is_in_range(assigned, i + 1, shard_count, more, max_per_shard);
    }
}

/// No shard ever holds more assets than it takes.
pub proof fn law_capacity_is_respected(
    start: Map<Seq<char>, usize>,
    ids: Seq<Seq<char>>,
    pairs: int,
    shard_count: usize,
    max_per_shard: usize,
)
    requires
        0 <= pairs <= pair_count(ids),
        start.dom().finite(),
        within_capacity(start, max_per_shard),
        uses_shards(start, shard_count),
    ensures
        ({
            let assigned = assigned_through(start, ids, pairs, shard_count, max_per_shard).0;
            &&& assigned.dom().finite()
            &&& within_capacity(assigned, max_per_shard)
            &&& uses_shards(assigned, shard_count)
        }),
    decreases pairs,
{
    if pairs > 0 {
        let k = pairs - 1;
        law_capacity_is_respected(start, ids, k, shard_count, max_per_shard);
        let before = assigned_through(start, ids, k, shard_count, max_per_shard).0;
        let assigned = assigned_through(start, ids, pairs, shard_count, max_per_shard).0;
        let pair = pair_at(ids, k);
        lemma_room_is_in_range(before, 0, shard_count, pair.len(), max_per_shard);
        match chosen_shard(before, pair, shard_count, max_per_shard) {
            Some(s) => {
                assert(0 <= s < shard_count);
                let shard = s as usize;
                let first = placed(before, pair[0], s);
                lemma_placed_load(before, pair[0], shard);
                if pair.len() > 1 {
                    lemma_placed_load(first, pair[1], shard);
                }
                assert forall|i: int| #[trigger] on_shard(assigned, i).len() <= max_per_shard by {
                    assert(on_shard(before, i).len() <= max_per_shard);
                    if i != shard && pair.len() > 1 {
                        assert(on_shard(first, i) == on_shard(before, i));
                    }
                }
            },
            None => {},
        }
    }
}

/// The assets on the first shards.
spec fn on_first(assigned: Map<Seq<char>, usize>, shards: int) -> Set<Seq<char>> {
    assigned.dom().filter(|asset: Seq<char>| assigned[asset] < shards)
}

proof fn lemma_full_shards_hold(assigned: Map<Seq<char>, usize>, shards: int, load: nat)
    requires
        assigned.dom().finite(),
        0 <= shards,
        forall|i: int| 0 <= i < shards ==> #[trigger] on_shard(assigned, i).len() >= load,
    ensures
        on_first(assigned, shards).finite(),
        on_first(assigned, shards).len() >= shards * load,
    decreases shards,
{
    if shards > 0 {
        lemma_full_shards_hold(assigned, shards - 1, load);
        let earlier = on_first(assigned, shards - 1);
        let last = on_shard(assigned, shards - 1);
        assert(earlier.disjoint(last));
        assert(on_first(assigned, shards) =~= earlier + last);
        vstd::set_lib::lemma_set_disjoint_lens(earlier, last);
        assert(shards * load == (shards - 1) * load + load) by (nonlinear_arith);
    } else {
        assert(shards * load == 0) by (nonlinear_arith)
            requires
                shards == 0,
        ;
    }
}

proof fn lemma_no_room(
    assigned: Map<Seq<char>, usize>,
    i: int,
    shard: int,
    shard_count: usize,
    more: nat,
    max_per_shard: usize,
)
    requires
        0 <= i <= shard < shard_count,
        first_with_room(assigned, i, shard_count, more, max_per_shard) is None,
    ensures
        !has_room(assigned, shard, more, max_per_shard),
    decreases shard - i,
{
    if i < shard {
        lemma_no_room(assigned, i + 1, shard, shard_count, more, max_per_shard);
    }
}

/// Whether every shard holds whole pairs.
spec fn holds_whole_pairs(assigned: Map<Seq<char>, usize>) -> bool {
    forall|shard: int| #[trigger] on_shard(assigned, shard).len() % 2 == 0
}

proof fn lemma_room_for_next(
    start: Map<Seq<char>, usize>,
    ids: Seq<Seq<char>>,
    pairs: int,
    shard_count: usize,
    max_per_shard: usize,
)
    requires
        forall|asset: Seq<char>| !start.contains_key(asset),
        ids.no_duplicates(),
        max_per_shard % 2 == 0,
        ids.len() <= shard_count * max_per_shard,
        0 <= pairs <= pair_count(ids),
    ensures
        ({
            let (assigned, fits) = assigned_through(start, ids, pairs, shard_count, max_per_shard);
            &&& fits
            &&& assigned.dom().finite()
            &&& 2 * pairs <= ids.len() ==> assigned.dom().len() == 2 * pairs && holds_whole_pairs(
                assigned,
            )
        }),
    decreases pairs,
{
    if pairs == 0 {
        assert(start.dom() =~= Set::empty());
        assert forall|shard: int| #[trigger] on_shard(start, shard).len() % 2 == 0 by {
            assert(on_shard(start, shard) =~= Set::empty());
        }
    } else {
        let k = pairs - 1;
        lemma_room_for_next(start, ids, k, shard_count, max_per_shard);
        law_assignments_are_stable_and_complete(start, ids, k, shard_count, max_per_shard);
        let before = assigned_through(start, ids, k, shard_count, max_per_shard).0;
        let assigned = assigned_through(start, ids, pairs, shard_count, max_per_shard).0;
        let pair = pair_at(ids, k);
        let head = ids.take(2 * k);
        assert forall|i: int| 0 <= i < pair.len() implies !before.contains_key(
            #[trigger] pair[i],
        ) by {
            assert(pair[i] == ids[2 * k + i]);
            if before.contains_key(pair[i]) {
                let j = choose|j: int| 0 <= j < head.len() && head[j] == pair[i];
                assert(ids[j] == ids[2 * k + i]);
            }
        }
        assert(!before.contains_key(pair[0]));
        let more = pair.len();
        let chosen = first_with_room(before, 0, shard_count, more, max_per_shard);
        if pair.len() > 1 {
            assert(!before.contains_key(pair[1]));
        }
        assert(preferred_shard(before, pair) is None);
        if chosen is None {
            assert forall|i: int| 0 <= i < shard_count implies #[trigger] on_shard(before, i).len()
                >= max_per_shard by {
                lemma_no_room(before, 0, i, shard_count, more, max_per_shard);
                assert(on_shard(before, i).len() % 2 == 0);
            }
            lemma_full_shards_hold(before, shard_count as int, max_per_shard as nat);
            vstd::set_lib::lemma_len_subset(on_first(before, shard_count as int), before.dom());
            assert(false);
        }
        lemma_room_is_in_range(before, 0, shard_count, more, max_per_shard);
        let shard = (chosen->0) as usize;
        let first = before.insert(pair[0], shard);
        assert(placed(before, pair[0], shard as int) == first);
        if pair.len() > 1 {
            assert(pair[0] == ids[2 * k] && pair[1] == ids[2 * k + 1]);
            assert(pair[0] != pair[1]);
            assert(assigned == first.insert(pair[1], shard));
            assert(assigned.dom() =~= before.dom().insert(pair[0]).insert(pair[1]));
            assert forall|i: int| #[trigger] on_shard(assigned, i).len() % 2 == 0 by {
                lemma_placed(before, pair[0], shard, i);
                lemma_placed(first, pair[1], shard, i);
                assert(on_shard(before, i).len() % 2 == 0);
                assert(on_shard(before, i).finite());
            }
        } else {
            assert(assigned.dom() =~= before.dom().insert(pair[0]));
        }
    }
}

/// Shards that are empty and take an even number of assets take any distinct
/// assets that there is room for in all: none is refused for want of a shard.
pub proof fn law_empty_shards_refuse_nothing_that_fits(
    start: Map<Seq<char>, usize>,
    ids: Seq<Seq<char>>,
    shard_count: usize,
    max_per_shard: usize,
)
    requires
        forall|asset: Seq<char>| !start.contains_key(asset),
        ids.no_duplicates(),
        max_per_shard % 2 == 0,
        ids.len() <= shard_count * max_per_shard,
    ensures
        assigned_through(start, ids, pair_count(ids), shard_count, max_per_shard).1,
{
    lemma_room_for_next(start, ids, pair_count(ids), shard_count, max_per_shard);
}

/// How many connections it takes to follow the greatest number of assets: just
/// enough room for all of them.
pub fn shard_count(max_assets_per_connection: usize, max_total_assets: usize) -> (r: usize)
    requires
        max_assets_per_connection > 0,
    ensures
        r * max_assets_per_connection >= max_total_assets,
        r > 0 ==> (r - 1) * max_assets_per_connection < max_total_assets,
{
    let full: usize = max_total_assets / max_assets_per_connection;
    let rest: usize = max_total_assets % max_assets_per_connection;
    proof {
        vstd::arithmetic::div_mod::lemma_fundamental_div_mod(
            max_total_assets as int,
            max_assets_per_connection as int,
        );
        assert(max_assets_per_connection * full == full * max_assets_per_connection)
            by (nonlinear_arith);
        assert((full + 1) * max_assets_per_connection == full * max_assets_per_connection
            + max_assets_per_connection) by (nonlinear_arith);
        assert((full - 1) * max_assets_per_connection == full * max_assets_per_connection
            - max_assets_per_connection) by (nonlinear_arith);
        if full == usize::MAX && rest > 0 {
            assert(full * max_assets_per_connection >= full) by (nonlinear_arith)
                requires
                    max_assets_per_connection >= 1,
                    full >= 0,
            ;
        }
    }
    if rest > 0 {
        full + 1
    } else {
        full
    }
}

// ---------------------------------------------------------------------------
// Where pairs go
// ---------------------------------------------------------------------------

/// The assets that have a shard.
pub open spec fn assets_of(assigned: Map<Seq<char>, usize>, shard: int) -> Set<Seq<char>> {
    Set::new(|asset: Seq<char>| assigned.contains_key(asset) && assigned[asset] == shard)
}

/// How many assets a shard has.
pub open spec fn load_of(assigned: Map<Seq<char>, usize>, shard: int) -> nat {
    assets_of(assigned, shard).len()
}

proof fn lemma_load(assigned: Map<Seq<char>, usize>, shard: int)
    ensures
        on_shard(assigned, shard).len() == load_of(assigned, shard),
{
    assert(on_shard(assigned, shard) =~= assets_of(assigned, shard));
}

/// The shard with room is the first on which so many more stay within the limit;
/// there is none exactly when there is no such shard.
pub proof fn law_the_first_shard_with_room(
    assigned: Map<Seq<char>, usize>,
    i: int,
    shard_count: usize,
    more: nat,
    max_per_shard: usize,
)
    requires
        0 <= i,
    ensures
        match first_with_room(assigned, i, shard_count, more, max_per_shard) {
            Some(shard) => {
                &&& i <= shard < shard_count
                &&& load_of(assigned, shard) + more <= max_per_shard
                &&& forall|k: int|
                    i <= k < shard ==> #[trigger] load_of(assigned, k) + more > max_per_shard
            },
            None => forall|k: int|
                i <= k < shard_count ==> #[trigger] load_of(assigned, k) + more > max_per_shard,
        },
    decreases shard_count - i,
{
    lemma_load(assigned, i);
    if i < shard_count && !has_room(assigned, i, more, max_per_shard) {
        law_the_first_shard_with_room(assigned, i + 1, shard_count, more, max_per_shard);
    }
}

/// A pair of which both have a shard stays. Any other goes to the shard of the first
/// of it that has one, where both more fit there, and to the first shard with room for
/// both otherwise; an asset that has a shard keeps it. It is refused exactly when no
/// shard has room.
pub proof fn law_where_a_pair_goes(
    before: Map<Seq<char>, usize>,
    a: Seq<char>,
    b: Seq<char>,
    shard_count: usize,
    max_per_shard: usize,
)
    requires
        a != b,
        uses_shards(before, shard_count),
    ensures
        ({
            let after = pair_assigned(before, seq![a, b], shard_count, max_per_shard);
            let known = before.contains_key(a) || before.contains_key(b);
            let near = if before.contains_key(a) {
                before[a] as int
            } else {
                before[b] as int
            };
            let stays_near = known && load_of(before, near) + 2 <= max_per_shard;
            let free = first_with_room(before, 0, shard_count, 2, max_per_shard);
            let target = if stays_near {
                Some(near)
            } else {
                free
            };
            if before.contains_key(a) && before.contains_key(b) {
                after == Some(before)
            } else {
                &&& after is None <==> target is None
                &&& after matches Some(now) ==> {
                    &&& now.dom() == before.dom().insert(a).insert(b)
                    &&& now[a] == if before.contains_key(a) {
                        before[a] as int
                    } else {
                        target->0
                    }
                    &&& now[b] == if before.contains_key(b) {
                        before[b] as int
                    } else {
                        target->0
                    }
                    &&& forall|other: Seq<char>| #[trigger]
                        before.contains_key(other) ==> now[other] == before[other]
                }
            }
        }),
{
    let pair = seq![a, b];
    assert(pair[0] == a && pair[1] == b && pair.len() == 2);
    if before.contains_key(a) {
        lemma_load(before, before[a] as int);
    }
    if before.contains_key(b) {
        lemma_load(before, before[b] as int);
    }
    law_the_first_shard_with_room(before, 0, shard_count, 2, max_per_shard);
    match pair_assigned(before, pair, shard_count, max_per_shard) {
        Some(now) => {
            assert(now.dom() =~= before.dom().insert(a).insert(b));
        },
        None => {},
    }
}

/// Assets come in pairs, in their order, the last one alone where their number is
/// odd; and pair by pair they are assigned, up to the first that does not fit.
pub proof fn law_assets_are_assigned_pair_by_pair(
    assigned: Map<Seq<char>, usize>,
    ids: Seq<Seq<char>>,
    k: int,
    shard_count: usize,
    max_per_shard: usize,
)
    requires
        0 <= k < pair_count(ids),
    ensures
        ids.len() <= 2 * pair_count(ids) <= ids.len() + 1,
        pair_at(ids, k) == ids.subrange(
            2 * k,
            if 2 * k + 2 <= ids.len() {
                2 * k + 2
            } else {
                ids.len() as int
            },
        ),
        assigned_through(assigned, ids, 0, shard_count, max_per_shard) == (assigned, true),
        ({
            let (before, fits) = assigned_through(assigned, ids, k, shard_count, max_per_shard);
            let (after, fit) = assigned_through(assigned, ids, k + 1, shard_count, max_per_shard);
            let next = pair_assigned(before, pair_at(ids, k), shard_count, max_per_shard);
            &&& fit <==> fits && next is Some
            &&& fit ==> next == Some(after)
            &&& !fit ==> after == before
        }),
{
    assert(pair_at(ids, k) =~= ids.subrange(
        2 * k,
        if 2 * k + 2 <= ids.len() {
            2 * k + 2
        } else {
            ids.len() as int
        },
    ));
}

} // verus!
