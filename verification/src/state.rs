//! One candidate future of the game: the player's lane, accumulated power
//! and score, the turn counter, the branch's combat bookkeeping and its
//! incremental Zobrist hash, with the transition operators that advance a
//! branch by one simulated turn.

use vstd::prelude::*;
use crate::enemy::Enemy;
use crate::enemy::EnemyCollection;
use crate::tracker::cleaned_damages;
use crate::tracker::cleaned_indices;
use crate::tracker::state_hash;
use crate::tracker::tracker_wf;
use crate::tracker::EnemyState;
use crate::tracker::MAX_ATTACK;
use crate::zobrist::ZobristHash;
use crate::CENTER;
use crate::MAX_HP;
use crate::MAX_TURN;
use crate::WIDTH;

verus! {

broadcast use vstd::array::group_array_axioms;

/// Scaling factor that turns fractional partial credit into integers.
pub const SCORE_SCALE: u128 = 1024;

/// A single move: shift one lane left or right, or stay.
#[derive(Clone, Copy, PartialEq, Eq, Structural, Debug)]
pub enum Direction {
    Left,
    Stay,
    Right,
}

/// The inverse of a move.
pub open spec fn opposite(d: Direction) -> Direction {
    match d {
        Direction::Left => Direction::Right,
        Direction::Stay => Direction::Stay,
        Direction::Right => Direction::Left,
    }
}

/// The lane reached from `column` by moving in direction `d`, wrapping
/// around the circular track.
pub open spec fn spec_move(column: int, d: Direction) -> int {
    match d {
        Direction::Left => (column + (WIDTH as int) - 1) % (WIDTH as int),
        Direction::Stay => column,
        Direction::Right => (column + 1) % (WIDTH as int),
    }
}

/// Moving and then moving in the opposite direction returns to the
/// original lane.
pub proof fn lemma_move_round_trip(column: int, d: Direction)
    requires
        0 <= column < WIDTH,
    ensures
        spec_move(spec_move(column, d), opposite(d)) == column,
{
}

/// The front enemy of lane `c` sits at the bottom row at `turn`.
pub open spec fn spec_crash(lanes: Seq<Seq<Enemy>>, idx: Seq<usize>, c: int, turn: usize) -> bool {
    (idx[c] as int) < lanes[c].len() && lanes[c][idx[c] as int].spec_is_bottom(turn)
}

/// Exact description of one attack step at lane `c`: if a front enemy
/// exists, `power0 / 100` damage is added; when accumulated damage reaches
/// the enemy's hit points the enemy is destroyed, its hit points credited
/// to the raw score, its reward to the power, the cursor advanced and the
/// damage reset; otherwise only the damage grows.
pub open spec fn attack_rel(
    lanes: Seq<Seq<Enemy>>,
    c: int,
    idx0: Seq<usize>,
    dmg0: Seq<u64>,
    power0: u64,
    raw0: u64,
    idx1: Seq<usize>,
    dmg1: Seq<u64>,
    power1: u64,
    raw1: u64,
) -> bool {
    if (idx0[c] as int) < lanes[c].len() {
        let e = lanes[c][idx0[c] as int];
        let lvl = (power0 as int) / 100;
        let dnew = dmg0[c] + lvl;
        if dnew >= (e.hp as int) {
            &&& idx1 == idx0.update(c, (idx0[c] + 1) as usize)
            &&& dmg1 == dmg0.update(c, 0u64)
            &&& power1 == power0 + e.power
            &&& raw1 == raw0 + e.hp
        } else {
            &&& idx1 == idx0
            &&& dmg1 == dmg0.update(c, dnew as u64)
            &&& power1 == power0
            &&& raw1 == raw0
        }
    } else {
        &&& idx1 == idx0
        &&& dmg1 == dmg0
        &&& power1 == power0
        &&& raw1 == raw0
    }
}

/// Sum of the first `c` lane cursors; it counts every enemy ever resolved.
pub open spec fn index_sum(idx: Seq<usize>, c: int) -> int
    decreases c,
{
    if c <= 0 {
        0
    } else {
        index_sum(idx, c - 1) + idx[c - 1]
    }
}

/// A well formed lane holds fewer than `MAX_TURN` enemies.
pub proof fn lemma_lane_len_bound(lane: Seq<Enemy>)
    requires
        crate::enemy::lane_wf(lane),
    ensures
        lane.len() <= MAX_TURN,
{
    if lane.len() > MAX_TURN {
        assert(lane.len() - 1 <= lane[lane.len() - 1].spawn_turn);
    }
}

/// The cursor sum is non-negative and bounded by one cursor per lane per
/// turn of the run.
pub proof fn lemma_index_sum_bound(lanes: Seq<Seq<Enemy>>, idx: Seq<usize>, c: int)
    requires
        0 <= c <= WIDTH,
        forall|j: int| 0 <= j < WIDTH ==> crate::enemy::lane_wf(#[trigger] lanes[j]),
        forall|j: int| 0 <= j < WIDTH ==> #[trigger] idx[j] <= lanes[j].len(),
    ensures
        0 <= index_sum(idx, c) <= c * (MAX_TURN as int),
    decreases c,
{
    if c > 0 {
        lemma_index_sum_bound(lanes, idx, c - 1);
        lemma_lane_len_bound(lanes[c - 1]);
    }
}

/// Advancing one cursor by one raises the cursor sum by exactly one.
pub proof fn lemma_index_sum_update(idx: Seq<usize>, k: int, v: usize, c: int)
    requires
        0 <= k < idx.len(),
        c <= idx.len(),
        idx[k] < v,
        v == idx[k] + 1,
    ensures
        c <= k ==> index_sum(idx.update(k, v), c) == index_sum(idx, c),
        c > k ==> index_sum(idx.update(k, v), c) == index_sum(idx, c) + 1,
    decreases c,
{
    if c > 0 {
        lemma_index_sum_update(idx, k, v, c - 1);
    }
}

/// All-zero cursors sum to zero.
pub proof fn lemma_index_sum_zero(idx: Seq<usize>, c: int)
    requires
        forall|j: int| 0 <= j < c ==> #[trigger] idx[j] == 0,
    ensures
        index_sum(idx, c) == 0,
    decreases c,
{
    if c > 0 {
        lemma_index_sum_zero(idx, c - 1);
    }
}

/// The cursor sum never shrinks when every cursor moves forward or stays.
pub proof fn lemma_index_sum_monotone(idx1: Seq<usize>, idx2: Seq<usize>, c: int)
    requires
        forall|j: int| 0 <= j < c ==> #[trigger] idx1[j] <= #[trigger] idx2[j],
    ensures
        index_sum(idx1, c) <= index_sum(idx2, c),
    decreases c,
{
    if c > 0 {
        lemma_index_sum_monotone(idx1, idx2, c - 1);
    }
}

/// Scaled partial credit toward the raw score for the enemy engaged in
/// lane `c`, weighted by `w`: the enemy's hit points times
/// `w/2 * (damage/hp)^2`, times `SCORE_SCALE`, rounded down.
pub open spec fn partial_raw(
    lanes: Seq<Seq<Enemy>>,
    idx: Seq<usize>,
    dmg: Seq<u64>,
    c: int,
    w: int,
) -> int {
    if (idx[c] as int) < lanes[c].len() && dmg[c] > 0 {
        let e = lanes[c][idx[c] as int];
        (w * (dmg[c] as int) * (dmg[c] as int) * (SCORE_SCALE as int)) / (2 * (e.hp as int))
    } else {
        0
    }
}

/// Scaled partial credit toward the power for the enemy engaged in lane
/// `c`, weighted by `w`: the enemy's reward times `w/2 * (damage/hp)^2`,
/// times `SCORE_SCALE`, rounded down.
pub open spec fn partial_power(
    lanes: Seq<Seq<Enemy>>,
    idx: Seq<usize>,
    dmg: Seq<u64>,
    c: int,
    w: int,
) -> int {
    if (idx[c] as int) < lanes[c].len() && dmg[c] > 0 {
        let e = lanes[c][idx[c] as int];
        (w * (e.power as int) * (dmg[c] as int) * (dmg[c] as int) * (SCORE_SCALE as int)) / (2 * (
        e.hp as int) * (e.hp as int))
    } else {
        0
    }
}

/// The heuristic value of a branch: banked raw score and power plus
/// partial credit for the current lane (full weight) and its two
/// neighbors (half weight), the raw part growing with the square of the
/// elapsed turns and the power part with the remaining turns.
pub open spec fn spec_score(
    lanes: Seq<Seq<Enemy>>,
    idx: Seq<usize>,
    dmg: Seq<u64>,
    column: int,
    power: u64,
    raw_score: u64,
    turn: usize,
) -> int {
    let left = spec_move(column, Direction::Left);
    let right = spec_move(column, Direction::Right);
    let rawp = (raw_score as int) * (SCORE_SCALE as int) + partial_raw(lanes, idx, dmg, column, 2)
        + partial_raw(lanes, idx, dmg, left, 1) + partial_raw(lanes, idx, dmg, right, 1);
    let powp = (power as int) * (SCORE_SCALE as int) + partial_power(lanes, idx, dmg, column, 2)
        + partial_power(lanes, idx, dmg, left, 1) + partial_power(lanes, idx, dmg, right, 1);
    rawp * (turn as int) * (turn as int) + powp * ((MAX_TURN - turn) as int) * (MAX_TURN as int)
}

/// One branch of the search: a candidate future game state.
#[derive(Clone, Copy, Debug)]
pub struct State {
    /// The player's lane.
    pub column: usize,
    /// Accumulated power; the attack level is `power / 100`.
    pub power: u64,
    /// Cumulative hit points of fully destroyed enemies.
    pub raw_score: u64,
    /// Heuristic value, recomputed after every transition.
    pub score: u128,
    /// Simulated turn counter.
    pub turn: usize,
    /// Incremental Zobrist hash of the branch's combat situation.
    pub hash: u64,
    /// Per-lane cursors and accumulated damage.
    pub enemies: EnemyState,
}

impl State {
    /// Structural well-formedness against a ledger, including the bounds
    /// that keep all arithmetic below its machine limits.
    pub open spec fn wf(self, coll: EnemyCollection) -> bool {
        &&& self.column < WIDTH
        &&& self.turn <= MAX_TURN
        &&& tracker_wf(coll.lanes(), self.enemies.indices@, self.enemies.damages@)
        &&& (self.power as int) <= 100 + 0xffff_ffff * index_sum(
            self.enemies.indices@,
            WIDTH as int,
        )
        &&& (self.raw_score as int) <= (MAX_HP as int) * index_sum(
            self.enemies.indices@,
            WIDTH as int,
        )
    }

    /// The incrementally maintained hash equals the hash recomputed from
    /// scratch out of the branch's combat situation.
    pub open spec fn hash_ok(self, coll: EnemyCollection, table: ZobristHash) -> bool {
        self.hash == state_hash(table, coll.lanes(), self.enemies.indices@, self.enemies.damages@)
    }

    /// The starting state: center lane, power 100, nothing destroyed.
    pub fn new() -> (r: Self)
        ensures
            r.column == CENTER,
            r.power == 100,
            r.raw_score == 0,
            r.score == 0,
            r.turn == 0,
            r.hash == 0,
            r.enemies.indices@ =~= Seq::new(WIDTH as nat, |c: int| 0usize),
            r.enemies.damages@ =~= Seq::new(WIDTH as nat, |c: int| 0u64),
    {
        Self {
            column: CENTER,
            power: 100,
            raw_score: 0,
            turn: 0,
            score: 0,
            enemies: EnemyState::new(),
            hash: 0,
        }
    }

    /// The attack strength: one point of damage per hundred power.
    pub fn level(&self) -> (r: u64)
        ensures
            r == (self.power as int) / 100,
    {
        self.power / 100
    }

    /// Shifts the player one lane, wrapping around the track; nothing else
    /// changes.
    pub fn move_player(&mut self, direction: Direction)
        requires
            old(self).column < WIDTH,
        ensures
            *final(self) == (State {
                column: spec_move(old(self).column as int, direction) as usize,
                ..*old(self)
            }),
    {
        let c = self.column;
        self.column = match direction {
            Direction::Left => if c == 0 {
                WIDTH - 1
            } else {
                c - 1
            },
            Direction::Stay => c,
            Direction::Right => if c + 1 == WIDTH {
                0
            } else {
                c + 1
            },
        };
    }

    /// Attacks the front enemy of the current lane, if any, with strength
    /// `power / 100`, crediting a destroyed enemy's hit points and reward.
    pub fn attack(&mut self, enemy_collection: &EnemyCollection, hash: &ZobristHash)
        requires
            enemy_collection.wf(),
            hash.wf(),
            old(self).wf(*enemy_collection),
            old(self).hash_ok(*enemy_collection, *hash),
        ensures
            final(self).wf(*enemy_collection),
            final(self).hash_ok(*enemy_collection, *hash),
            final(self).column == old(self).column,
            final(self).turn == old(self).turn,
            final(self).score == old(self).score,
            attack_rel(
                enemy_collection.lanes(),
                old(self).column as int,
                old(self).enemies.indices@,
                old(self).enemies.damages@,
                old(self).power,
                old(self).raw_score,
                final(self).enemies.indices@,
                final(self).enemies.damages@,
                final(self).power,
                final(self).raw_score,
            ),
            final(self).power >= old(self).power,
            final(self).raw_score >= old(self).raw_score,
    {
        let ghost lanes = enemy_collection.lanes();
        let ghost idx0 = self.enemies.indices@;
        let level = self.level();
        let col = self.column;
        if self.enemies.has_enemy(enemy_collection, col) {
            proof {
                lemma_index_sum_bound(lanes, idx0, WIDTH as int);
                assert(level <= MAX_ATTACK);
            }
            let (hp, power) = self.enemies.damage(
                enemy_collection,
                col,
                level,
                hash,
                &mut self.hash,
            );
            proof {
                lemma_index_sum_bound(lanes, idx0, WIDTH as int);
                if hp > 0 || power > 0 || self.enemies.indices@ != idx0 {
                    lemma_index_sum_update(
                        idx0,
                        col as int,
                        (idx0[col as int] + 1) as usize,
                        WIDTH as int,
                    );
                }
            }
            self.raw_score = self.raw_score + (hp as u64);
            self.power = self.power + (power as u64);
        }
    }

    /// Before the first transition of a turn, retires every enemy flagged
    /// as expired this turn, with no combat credit.
    pub fn clean_up(&mut self, enemy_collection: &EnemyCollection, hash: &ZobristHash)
        requires
            enemy_collection.wf(),
            hash.wf(),
            old(self).wf(*enemy_collection),
            old(self).hash_ok(*enemy_collection, *hash),
            old(self).turn < MAX_TURN,
        ensures
            final(self).wf(*enemy_collection),
            final(self).hash_ok(*enemy_collection, *hash),
            final(self).column == old(self).column,
            final(self).turn == old(self).turn,
            final(self).score == old(self).score,
            final(self).power == old(self).power,
            final(self).raw_score == old(self).raw_score,
            final(self).enemies.indices@ == cleaned_indices(
                enemy_collection.lanes(),
                old(self).enemies.indices@,
                enemy_collection.flags()[old(self).turn as int],
                old(self).turn,
            ),
            final(self).enemies.damages@ == cleaned_damages(
                enemy_collection.lanes(),
                old(self).enemies.indices@,
                old(self).enemies.damages@,
                enemy_collection.flags()[old(self).turn as int],
                old(self).turn,
            ),
    {
        let ghost lanes = enemy_collection.lanes();
        let ghost idx0 = self.enemies.indices@;
        let t = self.turn;
        self.enemies.clean_up_enemies(enemy_collection, t, hash, &mut self.hash);
        proof {
            assert forall|j: int| 0 <= j < WIDTH implies idx0[j] <= #[trigger] self.enemies.indices@[j] by {}
            lemma_index_sum_monotone(idx0, self.enemies.indices@, WIDTH as int);
        }
    }

    /// Advances the branch by one simulated turn: crash check at the
    /// current lane, move, crash check at the new lane, attack, turn
    /// increment, score recomputation.  Returns whether the branch is
    /// still alive; a dead branch is discarded by the caller.
    pub fn progress_turn(
        &mut self,
        enemy_collection: &EnemyCollection,
        hash: &ZobristHash,
        direction: Direction,
    ) -> (alive: bool)
        requires
            enemy_collection.wf(),
            hash.wf(),
            old(self).wf(*enemy_collection),
            old(self).hash_ok(*enemy_collection, *hash),
            old(self).turn < MAX_TURN,
        ensures
            final(self).wf(*enemy_collection),
            final(self).hash_ok(*enemy_collection, *hash),
            final(self).column == spec_move(old(self).column as int, direction),
            final(self).turn == old(self).turn + 1,
            attack_rel(
                enemy_collection.lanes(),
                spec_move(old(self).column as int, direction),
                old(self).enemies.indices@,
                old(self).enemies.damages@,
                old(self).power,
                old(self).raw_score,
                final(self).enemies.indices@,
                final(self).enemies.damages@,
                final(self).power,
                final(self).raw_score,
            ),
            alive == (!spec_crash(
                enemy_collection.lanes(),
                old(self).enemies.indices@,
                old(self).column as int,
                old(self).turn,
            ) && !spec_crash(
                enemy_collection.lanes(),
                old(self).enemies.indices@,
                spec_move(old(self).column as int, direction),
                old(self).turn,
            )),
            final(self).score == spec_score(
                enemy_collection.lanes(),
                final(self).enemies.indices@,
                final(self).enemies.damages@,
                final(self).column as int,
                final(self).power,
                final(self).raw_score,
                final(self).turn,
            ),
            final(self).power >= old(self).power,
            final(self).raw_score >= old(self).raw_score,
    {
        let mut alive = true;
        let crash_before = self.enemies.crash(enemy_collection, self.column, self.turn);
        alive = alive && !crash_before;
        self.move_player(direction);
        let crash_after = self.enemies.crash(enemy_collection, self.column, self.turn);
        alive = alive && !crash_after;
        self.attack(enemy_collection, hash);
        self.turn = self.turn + 1;
        self.update_score(enemy_collection);
        alive
    }

    /// Recomputes the branch's heuristic score from its current fields.
    pub fn update_score(&mut self, enemy_collection: &EnemyCollection)
        requires
            enemy_collection.wf(),
            old(self).wf(*enemy_collection),
        ensures
            final(self).score == spec_score(
                enemy_collection.lanes(),
                old(self).enemies.indices@,
                old(self).enemies.damages@,
                old(self).column as int,
                old(self).power,
                old(self).raw_score,
                old(self).turn,
            ),
            final(self).column == old(self).column,
            final(self).power == old(self).power,
            final(self).raw_score == old(self).raw_score,
            final(self).turn == old(self).turn,
            final(self).hash == old(self).hash,
            final(self).enemies == old(self).enemies,
    {
        let ghost lanes = enemy_collection.lanes();
        proof {
            lemma_index_sum_bound(lanes, self.enemies.indices@, WIDTH as int);
        }
        let col = self.column;
        let left = if col == 0 {
            WIDTH - 1
        } else {
            col - 1
        };
        let right = if col + 1 == WIDTH {
            0
        } else {
            col + 1
        };
        let (raw_center, pow_center) = partial_credit(enemy_collection, &self.enemies, col, 2);
        let (raw_left, pow_left) = partial_credit(enemy_collection, &self.enemies, left, 1);
        let (raw_right, pow_right) = partial_credit(enemy_collection, &self.enemies, right, 1);
        let rawp: u128 = (self.raw_score as u128) * SCORE_SCALE + raw_center + raw_left
            + raw_right;
        let powp: u128 = (self.power as u128) * SCORE_SCALE + pow_center + pow_left + pow_right;
        let tu: u128 = self.turn as u128;
        let rem: u128 = (MAX_TURN - self.turn) as u128;
        proof {
            assert(rawp <= 0x10_0000_0000u128);
            assert(powp <= 0x1_0000_0000_0000_0000u128);
            assert(rawp * tu <= 0x10_0000_0000u128 * 1000) by (nonlinear_arith)
                requires
                    rawp <= 0x10_0000_0000u128,
                    tu <= 1000,
            ;
            assert((rawp * tu) * tu <= 0x10_0000_0000u128 * 1000 * 1000) by (nonlinear_arith)
                requires
                    rawp * tu <= 0x10_0000_0000u128 * 1000,
                    tu <= 1000,
            ;
            assert(powp * rem <= 0x1_0000_0000_0000_0000u128 * 1000) by (nonlinear_arith)
                requires
                    powp <= 0x1_0000_0000_0000_0000u128,
                    rem <= 1000,
            ;
            assert((powp * rem) * (MAX_TURN as u128) <= 0x1_0000_0000_0000_0000u128 * 1000
                * 1000) by (nonlinear_arith)
                requires
                    powp * rem <= 0x1_0000_0000_0000_0000u128 * 1000,
                    MAX_TURN == 1000,
            ;
        }
        self.score = rawp * tu * tu + powp * rem * (MAX_TURN as u128);
    }

    /// Recomputes the Zobrist hash from scratch, walking every unresolved
    /// enemy of every lane.  On a consistent branch it returns exactly the
    /// incrementally maintained `hash` field.
    pub fn recompute_hash(&self, enemy_collection: &EnemyCollection, hash: &ZobristHash) -> (r:
        u64)
        requires
            enemy_collection.wf(),
            hash.wf(),
            self.wf(*enemy_collection),
        ensures
            r == state_hash(
                *hash,
                enemy_collection.lanes(),
                self.enemies.indices@,
                self.enemies.damages@,
            ),
            self.hash_ok(*enemy_collection, *hash) ==> r == self.hash,
    {
        let ghost lanes = enemy_collection.lanes();
        let ghost idx = self.enemies.indices@;
        let ghost dmg = self.enemies.damages@;
        let mut acc: u64 = 0;
        let mut c: usize = 0;
        while c < WIDTH
            invariant
                c <= WIDTH,
                enemy_collection.wf(),
                hash.wf(),
                self.wf(*enemy_collection),
                lanes == enemy_collection.lanes(),
                idx == self.enemies.indices@,
                dmg == self.enemies.damages@,
                acc == crate::tracker::lanes_hash(*hash, lanes, idx, dmg, c as int),
            decreases WIDTH - c,
        {
            let idxc = self.enemies.indices[c];
            let len = enemy_collection.lane_len(c);
            let lane_h: u64 = if idxc < len {
                let mut s: u64 = 0;
                let mut j: usize = len;
                while j > idxc + 1
                    invariant
                        idxc + 1 <= j <= len,
                        c < WIDTH,
                        enemy_collection.wf(),
                        hash.wf(),
                        lanes == enemy_collection.lanes(),
                        len == lanes[c as int].len(),
                        idxc < len,
                        s == crate::tracker::suffix_hash(*hash, lanes[c as int], c as int, j as int),
                    decreases j,
                {
                    j = j - 1;
                    let e = enemy_collection.get(c, j).unwrap();
                    s = hash.get(e.spawn_turn, c, e.hp) ^ s;
                }
                let e = enemy_collection.get(c, idxc).unwrap();
                let d = self.enemies.damages[c];
                let rem: u32 = if (d as u32) <= e.hp {
                    e.hp - (d as u32)
                } else {
                    0
                };
                proof {
                    assert(rem as int == crate::tracker::rem_hp(e, d));
                }
                hash.get(e.spawn_turn, c, rem) ^ s
            } else {
                0
            };
            acc = acc ^ lane_h;
            c += 1;
        }
        acc
    }
}

/// Two consistent branches whose per-lane cursors and damage agree carry
/// the same Zobrist hash, whatever move histories produced them; the
/// bucket pipeline therefore collapses them to one.
pub proof fn lemma_equal_situation_equal_hash(
    coll: EnemyCollection,
    table: ZobristHash,
    a: State,
    b: State,
)
    requires
        a.hash_ok(coll, table),
        b.hash_ok(coll, table),
        a.enemies.indices@ == b.enemies.indices@,
        a.enemies.damages@ == b.enemies.damages@,
    ensures
        a.hash == b.hash,
{
}

/// One column's scaled partial-credit contributions toward the raw score
/// and the power, for a lane with a positively damaged front enemy.
fn partial_credit(
    enemies: &EnemyCollection,
    tracker: &EnemyState,
    column: usize,
    weight: u64,
) -> (r: (u128, u128))
    requires
        enemies.wf(),
        tracker_wf(enemies.lanes(), tracker.indices@, tracker.damages@),
        column < WIDTH,
        1 <= weight <= 2,
    ensures
        r.0 == partial_raw(
            enemies.lanes(),
            tracker.indices@,
            tracker.damages@,
            column as int,
            weight as int,
        ),
        r.1 == partial_power(
            enemies.lanes(),
            tracker.indices@,
            tracker.damages@,
            column as int,
            weight as int,
        ),
        r.0 <= 0x2000_0000u128,
        r.1 <= 0x2000_0000_0000_0000u128,
{
    let idx = tracker.indices[column];
    let len = enemies.lane_len(column);
    if idx < len {
        let d = tracker.damages[column];
        if d > 0 {
            let e = enemies.get(column, idx).unwrap();
            let du: u128 = d as u128;
            let hpu: u128 = e.hp as u128;
            let wu: u128 = weight as u128;
            let pu: u128 = e.power as u128;
            proof {
                assert(du < hpu && hpu < 500);
                assert(wu * du <= 1000) by (nonlinear_arith)
                    requires
                        wu <= 2,
                        du < 500,
                ;
                assert((wu * du) * du <= 500000) by (nonlinear_arith)
                    requires
                        wu * du <= 1000,
                        du < 500,
                ;
                assert(wu * pu <= 2u128 * 0xffff_ffffu128) by (nonlinear_arith)
                    requires
                        wu <= 2,
                        pu <= 0xffff_ffffu128,
                ;
                assert((wu * pu) * du <= 2u128 * 0xffff_ffffu128 * 500) by (nonlinear_arith)
                    requires
                        wu * pu <= 2u128 * 0xffff_ffffu128,
                        du < 500,
                ;
                assert(((wu * pu) * du) * du <= 2u128 * 0xffff_ffffu128 * 500 * 500)
                    by (nonlinear_arith)
                    requires
                        (wu * pu) * du <= 2u128 * 0xffff_ffffu128 * 500,
                        du < 500,
                ;
                assert(1 <= (2 * hpu) * hpu <= 500000) by (nonlinear_arith)
                    requires
                        1 <= hpu < 500,
                ;
            }
            let num_raw: u128 = wu * du * du * SCORE_SCALE;
            let den_raw: u128 = 2 * hpu;
            let num_pow: u128 = wu * pu * du * du * SCORE_SCALE;
            let den_pow: u128 = 2 * hpu * hpu;
            let raw_part: u128 = num_raw / den_raw;
            let pow_part: u128 = num_pow / den_pow;
            proof {
                assert(raw_part <= num_raw) by (nonlinear_arith)
                    requires
                        den_raw >= 1,
                        raw_part == num_raw / den_raw,
                        num_raw >= 0,
                ;
                assert(pow_part <= num_pow) by (nonlinear_arith)
                    requires
                        den_pow >= 1,
                        pow_part == num_pow / den_pow,
                        num_pow >= 0,
                ;
            }
            (raw_part, pow_part)
        } else {
            (0, 0)
        }
    } else {
        (0, 0)
    }
}

} // verus!
