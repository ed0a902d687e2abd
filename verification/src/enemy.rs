//! Enemies and the shared, append-only ledger of everything ever spawned.
//!
//! The ledger owns, per lane, the enemies in spawn order, plus a turn-indexed
//! bitmask of lanes whose enemies silently expire that turn.  Search branches
//! never mutate the ledger; they only hold indices into it.

use vstd::prelude::*;
use vstd::pervasive::VecAdditionalExecFns;
use crate::zobrist::ZobristHash;
use crate::HEIGHT;
use crate::MAX_HP;
use crate::MAX_TURN;
use crate::WIDTH;

verus! {

/// An enemy, immutable once created.
#[derive(Clone, Copy, PartialEq, Eq, Structural, Debug)]
pub struct Enemy {
    /// Initial hit points.
    pub hp: u32,
    /// Reward granted to the player's power when the enemy is destroyed.
    pub power: u32,
    /// Turn at which the enemy appeared at the top of its lane.
    pub spawn_turn: usize,
}

impl Enemy {
    /// Builds an enemy record.
    pub fn new(hp: u32, power: u32, spawn_turn: usize) -> (r: Self)
        ensures
            r == (Enemy { hp, power, spawn_turn }),
    {
        Self { hp, power, spawn_turn }
    }

    /// The enemy has passed the bottom of the track and is gone at `turn`.
    pub open spec fn spec_is_out_of_range(self, turn: usize) -> bool {
        self.spawn_turn + HEIGHT <= turn
    }

    /// The enemy sits at the bottom row exactly at `turn`; a player sharing
    /// its lane crashes.
    pub open spec fn spec_is_bottom(self, turn: usize) -> bool {
        self.spawn_turn + HEIGHT - 1 == turn
    }

    /// Whether the enemy has silently expired by `turn`.
    pub fn is_out_of_range(&self, turn: usize) -> (r: bool)
        ensures
            r == self.spec_is_out_of_range(turn),
    {
        turn >= HEIGHT && self.spawn_turn <= turn - HEIGHT
    }

    /// Whether the enemy reaches the bottom row exactly at `turn`.
    pub fn is_bottom(&self, turn: usize) -> (r: bool)
        ensures
            r == self.spec_is_bottom(turn),
    {
        turn >= HEIGHT - 1 && self.spawn_turn == turn - (HEIGHT - 1)
    }
}

/// A single lane's history is well formed: hit points below the Zobrist
/// table's bound, spawn turns within the run, strictly increasing spawn
/// turns, and (a consequence kept explicit) each spawn turn at least its
/// position, which bounds the lane's length by `MAX_TURN`.
pub open spec fn lane_wf(lane: Seq<Enemy>) -> bool {
    &&& forall|i: int|
        0 <= i < lane.len() ==> {
            &&& ((#[trigger] lane[i]).hp as int) < (MAX_HP as int)
            &&& lane[i].spawn_turn < MAX_TURN
            &&& i <= lane[i].spawn_turn
        }
    &&& forall|i: int, j: int|
        0 <= i < j < lane.len() ==> #[trigger] lane[i].spawn_turn < #[trigger] lane[j].spawn_turn
}

/// The ledger of all enemies ever spawned, shared read-only by all branches.
pub struct EnemyCollection {
    pub enemies: Vec<Vec<Enemy>>,
    pub clean_flags: Vec<u32>,
}

/// The lanes left after folding a spawn batch into `lanes` at `turn`,
/// batch elements being `(hp, power, lane)` triples.
pub open spec fn lanes_after_spawn(
    lanes: Seq<Seq<Enemy>>,
    batch: Seq<(u32, u32, usize)>,
    turn: usize,
) -> Seq<Seq<Enemy>>
    decreases batch.len(),
{
    if batch.len() == 0 {
        lanes
    } else {
        let prev = lanes_after_spawn(lanes, batch.drop_last(), turn);
        let c = batch.last().2 as int;
        prev.update(c, prev[c].push(Enemy { hp: batch.last().0, power: batch.last().1, spawn_turn: turn }))
    }
}

/// The exclusive-or of the Zobrist values of a spawn batch at full health.
pub open spec fn batch_xor(
    table: ZobristHash,
    batch: Seq<(u32, u32, usize)>,
    turn: usize,
) -> u64
    decreases batch.len(),
{
    if batch.len() == 0 {
        0u64
    } else {
        batch_xor(table, batch.drop_last(), turn)
            ^ table.value(turn as int, batch.last().2 as int, batch.last().0 as int)
    }
}

/// The lane bitmask of a spawn batch.
pub open spec fn batch_mask(batch: Seq<(u32, u32, usize)>) -> u32
    decreases batch.len(),
{
    if batch.len() == 0 {
        0u32
    } else {
        batch_mask(batch.drop_last()) | (1u32 << (batch.last().2 as u32))
    }
}

/// A spawn batch is acceptable at `turn`: lanes in range, hit points below
/// the Zobrist bound, at most one spawn per lane, and every touched lane's
/// newest enemy older than `turn`.
pub open spec fn batch_wf(
    lanes: Seq<Seq<Enemy>>,
    batch: Seq<(u32, u32, usize)>,
    turn: usize,
) -> bool {
    &&& forall|k: int|
        0 <= k < batch.len() ==> {
            &&& (#[trigger] batch[k]).2 < WIDTH
            &&& (batch[k].0 as int) < (MAX_HP as int)
            &&& {
                let lane = lanes[batch[k].2 as int];
                lane.len() == 0 || lane.last().spawn_turn < turn
            }
        }
    &&& forall|k1: int, k2: int|
        0 <= k1 < k2 < batch.len() ==> (#[trigger] batch[k1]).2 != (#[trigger] batch[k2]).2
}

impl EnemyCollection {
    /// The per-lane enemy histories, as mathematical sequences.
    pub open spec fn lanes(self) -> Seq<Seq<Enemy>> {
        self.enemies@.map_values(|v: Vec<Enemy>| v@)
    }

    /// The turn-indexed expiry bitmask.
    pub open spec fn flags(self) -> Seq<u32> {
        self.clean_flags@
    }

    /// Structural well-formedness of the ledger.
    pub open spec fn wf(self) -> bool {
        &&& self.enemies@.len() == WIDTH
        &&& self.clean_flags@.len() == MAX_TURN
        &&& forall|c: int| 0 <= c < WIDTH ==> lane_wf(#[trigger] self.lanes()[c])
    }

    /// An empty ledger.
    pub fn new() -> (r: Self)
        ensures
            r.wf(),
            forall|c: int| 0 <= c < WIDTH ==> (#[trigger] r.lanes()[c]).len() == 0,
            forall|t: int| 0 <= t < MAX_TURN ==> r.flags()[t] == 0,
    {
        let mut enemies: Vec<Vec<Enemy>> = Vec::new();
        let mut c: usize = 0;
        while c < WIDTH
            invariant
                c <= WIDTH,
                enemies@.len() == c,
                forall|i: int| 0 <= i < c ==> (#[trigger] enemies@[i])@.len() == 0,
            decreases WIDTH - c,
        {
            enemies.push(Vec::new());
            c += 1;
        }
        let mut clean_flags: Vec<u32> = Vec::new();
        let mut t: usize = 0;
        while t < MAX_TURN
            invariant
                t <= MAX_TURN,
                clean_flags@.len() == t,
                forall|i: int| 0 <= i < t ==> clean_flags@[i] == 0,
            decreases MAX_TURN - t,
        {
            clean_flags.push(0);
            t += 1;
        }
        let r = Self { enemies, clean_flags };
        proof {
            assert(forall|c: int| 0 <= c < WIDTH ==> (#[trigger] r.lanes()[c]).len() == 0);
        }
        r
    }

    /// The enemy at `index` in `column`'s history, if any.
    pub fn get(&self, column: usize, index: usize) -> (r: Option<Enemy>)
        requires
            self.wf(),
            column < WIDTH,
        ensures
            index < self.lanes()[column as int].len() ==> r == Some(
                self.lanes()[column as int][index as int],
            ),
            index >= self.lanes()[column as int].len() ==> r is None,
    {
        let lane: &Vec<Enemy> = &self.enemies[column];
        if index < lane.len() {
            Some(lane[index])
        } else {
            None
        }
    }

    /// The number of enemies ever spawned in `column`.
    pub fn lane_len(&self, column: usize) -> (r: usize)
        requires
            self.wf(),
            column < WIDTH,
        ensures
            r == self.lanes()[column as int].len(),
    {
        self.enemies[column].len()
    }

    /// The expiry bitmask for `turn`.
    pub fn clean_flag(&self, turn: usize) -> (r: u32)
        requires
            self.wf(),
            turn < MAX_TURN,
        ensures
            r == self.flags()[turn as int],
    {
        self.clean_flags[turn]
    }

    /// Records one turn's spawn batch: appends each enemy to its lane,
    /// folds each enemy's full-health Zobrist value into `hash`, and stores
    /// the batch's lane bitmask at the turn the batch will expire.
    ///
    /// At most one spawn per lane per batch is required: the per-lane
    /// front-enemy bookkeeping and the expiry bitmask retire one enemy
    /// per lane per turn, and two same-turn spawns in one lane would
    /// leave the second stranded past its expiry.
    pub fn spawn(
        &mut self,
        spawns: &Vec<(u32, u32, usize)>,
        hashes: &ZobristHash,
        hash: &mut u64,
        turn: usize,
    )
        requires
            old(self).wf(),
            hashes.wf(),
            turn < MAX_TURN,
            batch_wf(old(self).lanes(), spawns@, turn),
        ensures
            final(self).wf(),
            final(self).lanes() == lanes_after_spawn(old(self).lanes(), spawns@, turn),
            *final(hash) == *old(hash) ^ batch_xor(*hashes, spawns@, turn),
            turn + HEIGHT < MAX_TURN ==> final(self).flags() == old(self).flags().update(
                (turn + HEIGHT) as int,
                batch_mask(spawns@),
            ),
            turn + HEIGHT >= MAX_TURN ==> final(self).flags() == old(self).flags(),
    {
        let ghost lanes0 = old(self).lanes();
        let ghost batch = spawns@;
        let ghost hash0 = *old(hash);
        let mut flag: u32 = 0;
        let mut k: usize = 0;

        proof {
            assert(batch.take(0) =~= Seq::<(u32, u32, usize)>::empty());
            crate::zobrist::lemma_xor_basics(hash0, 0, 0);
        }

        while k < spawns.len()
            invariant
                old(self).wf(),
                hashes.wf(),
                turn < MAX_TURN,
                batch_wf(lanes0, batch, turn),
                batch == spawns@,
                lanes0.len() == WIDTH,
                k <= spawns.len(),
                self.enemies@.len() == WIDTH,
                self.clean_flags@ == old(self).clean_flags@,
                self.lanes() == lanes_after_spawn(lanes0, batch.take(k as int), turn),
                *hash == hash0 ^ batch_xor(*hashes, batch.take(k as int), turn),
                flag == batch_mask(batch.take(k as int)),
                forall|c: int| 0 <= c < WIDTH ==> lane_wf(#[trigger] self.lanes()[c]),
            decreases spawns.len() - k,
        {
            let (hp, power, col) = spawns[k];
            let ghost prev = self.lanes();
            proof {
                assert(batch[k as int].2 == col && (batch[k as int].0 as int) < (MAX_HP as int));
                assert forall|k2: int|
                    0 <= k2 < batch.take(k as int).len() implies (#[trigger] batch.take(
                    k as int,
                )[k2]).2 != col as int by {
                    assert(batch[k2].2 != batch[k as int].2);
                }
                lemma_spawn_frame(lanes0, batch.take(k as int), turn, col as int);
                assert(prev[col as int] == lanes0[col as int]);
                assert(batch.take(k as int) =~= batch.take(k + 1).drop_last());
                assert(batch.take(k + 1).last() == batch[k as int]);
            }
            let enemy = Enemy::new(hp, power, turn);
            let mut lane: Vec<Enemy> = Vec::new();
            self.enemies.set_and_swap(col, &mut lane);
            lane.push(enemy);
            self.enemies.set_and_swap(col, &mut lane);
            let z = hashes.get(turn, col, hp);
            *hash = *hash ^ z;
            flag = flag | (1u32 << (col as u32));
            proof {
                assert(self.lanes() =~= prev.update(
                    col as int,
                    prev[col as int].push(enemy),
                ));
                assert(self.lanes() == lanes_after_spawn(lanes0, batch.take(k + 1), turn));
                crate::zobrist::lemma_xor_basics(
                    hash0,
                    batch_xor(*hashes, batch.take(k as int), turn),
                    z,
                );
                lemma_lane_push_wf(lanes0[col as int], enemy, turn);
                assert forall|c2: int| 0 <= c2 < WIDTH implies lane_wf(
                    #[trigger] self.lanes()[c2],
                ) by {
                    if c2 != col as int {
                        assert(self.lanes()[c2] == prev[c2]);
                    }
                }
            }
            k += 1;
        }
        proof {
            assert(batch.take(spawns.len() as int) =~= batch);
        }
        if turn + HEIGHT < MAX_TURN {
            self.clean_flags.set(turn + HEIGHT, flag);
        }
    }
}

/// Appending a fresh enemy, spawned strictly after everything already in
/// the lane, keeps the lane well formed.
pub proof fn lemma_lane_push_wf(lane: Seq<Enemy>, e: Enemy, turn: usize)
    requires
        lane_wf(lane),
        (e.hp as int) < (MAX_HP as int),
        e.spawn_turn == turn,
        turn < MAX_TURN,
        lane.len() == 0 || lane.last().spawn_turn < turn,
    ensures
        lane_wf(lane.push(e)),
{
    let l2 = lane.push(e);
    assert forall|i: int|
        0 <= i < l2.len() implies {
        &&& ((#[trigger] l2[i]).hp as int) < (MAX_HP as int)
        &&& l2[i].spawn_turn < MAX_TURN
        &&& i <= l2[i].spawn_turn
    } by {
        if i < lane.len() {
            assert(lane[i] == l2[i]);
        } else {
            assert(l2[i] == e);
            if lane.len() > 0 {
                assert(lane.len() - 1 <= lane[lane.len() - 1].spawn_turn);
                assert(lane[lane.len() - 1].spawn_turn < turn);
            }
        }
    }
    assert forall|i: int, j: int|
        0 <= i < j < l2.len() implies #[trigger] l2[i].spawn_turn
        < #[trigger] l2[j].spawn_turn by {
        if j < lane.len() {
            assert(lane[i].spawn_turn < lane[j].spawn_turn);
        } else {
            assert(l2[j] == e);
            if i < lane.len() - 1 {
                assert(lane[i].spawn_turn < lane[lane.len() - 1].spawn_turn);
            }
            assert(lane[lane.len() - 1].spawn_turn < turn);
        }
    }
}

/// Folding a spawn batch into the lanes leaves every lane that the batch
/// does not name unchanged, and keeps the number of lanes.
pub proof fn lemma_spawn_frame(
    lanes: Seq<Seq<Enemy>>,
    batch: Seq<(u32, u32, usize)>,
    turn: usize,
    c: int,
)
    requires
        forall|k: int| 0 <= k < batch.len() ==> (#[trigger] batch[k]).2 < WIDTH,
        lanes.len() == WIDTH,
        0 <= c < WIDTH,
    ensures
        lanes_after_spawn(lanes, batch, turn).len() == WIDTH,
        (forall|k: int| 0 <= k < batch.len() ==> (#[trigger] batch[k]).2 != c)
            ==> lanes_after_spawn(lanes, batch, turn)[c] == lanes[c],
    decreases batch.len(),
{
    if batch.len() > 0 {
        lemma_spawn_frame(lanes, batch.drop_last(), turn, c);
        if forall|k: int| 0 <= k < batch.len() ==> (#[trigger] batch[k]).2 != c {
            assert forall|k: int|
                0 <= k < batch.drop_last().len() implies (#[trigger] batch.drop_last()[k]).2
                != c by {
                assert(batch.drop_last()[k] == batch[k]);
            }
            assert(batch[batch.len() - 1].2 != c);
            assert(batch.last().2 != c);
        }
    }
}

} // verus!
