//! Per-branch combat bookkeeping: for every lane, an index into the ledger
//! (everything before it is destroyed or expired) and the damage already
//! dealt to the enemy at that index, together with the incremental Zobrist
//! hash of the whole combat situation.
//!
//! The hash of a branch is defined from scratch by [`state_hash`]: the
//! exclusive-or, over every lane, of the Zobrist values of all enemies not
//! yet resolved, the front enemy contributing at its remaining hit points
//! and everything behind it at full health.  Every mutation below keeps the
//! incrementally maintained hash equal to that definition.

use vstd::prelude::*;
use crate::enemy::Enemy;
use crate::enemy::EnemyCollection;
use crate::zobrist::lemma_xor_basics;
use crate::zobrist::ZobristHash;
use crate::MAX_HP;
use crate::MAX_TURN;
use crate::WIDTH;

verus! {

broadcast use vstd::array::group_array_axioms;

/// Upper bound assumed of a single attack's strength; far above anything a
/// run can accumulate, low enough that damage sums cannot overflow.
pub const MAX_ATTACK: u64 = 0x1_0000_0000_0000;

/// Remaining hit points of `e` after `d` damage, saturating at zero.
pub open spec fn rem_hp(e: Enemy, d: u64) -> int {
    if (d as int) <= (e.hp as int) {
        (e.hp as int) - (d as int)
    } else {
        0
    }
}

/// Exclusive-or of the full-health Zobrist values of `lane[j..]`.
pub open spec fn suffix_hash(table: ZobristHash, lane: Seq<Enemy>, c: int, j: int) -> u64
    decreases lane.len() - j,
{
    if j < 0 || j >= lane.len() {
        0u64
    } else {
        table.value(lane[j].spawn_turn as int, c, lane[j].hp as int) ^ suffix_hash(
            table,
            lane,
            c,
            j + 1,
        )
    }
}

/// One lane's contribution to a branch hash: the front enemy at its
/// remaining hit points, everything behind it at full health.
pub open spec fn lane_hash(
    table: ZobristHash,
    lane: Seq<Enemy>,
    c: int,
    idxv: usize,
    dmgv: u64,
) -> u64 {
    if (idxv as int) < lane.len() {
        table.value(lane[idxv as int].spawn_turn as int, c, rem_hp(lane[idxv as int], dmgv))
            ^ suffix_hash(table, lane, c, idxv as int + 1)
    } else {
        0u64
    }
}

/// Exclusive-or of the first `c` lanes' contributions.
pub open spec fn lanes_hash(
    table: ZobristHash,
    lanes: Seq<Seq<Enemy>>,
    idx: Seq<usize>,
    dmg: Seq<u64>,
    c: int,
) -> u64
    decreases c,
{
    if c <= 0 {
        0u64
    } else {
        lanes_hash(table, lanes, idx, dmg, c - 1) ^ lane_hash(
            table,
            lanes[c - 1],
            c - 1,
            idx[c - 1],
            dmg[c - 1],
        )
    }
}

/// The from-scratch Zobrist hash of a whole combat situation.
pub open spec fn state_hash(
    table: ZobristHash,
    lanes: Seq<Seq<Enemy>>,
    idx: Seq<usize>,
    dmg: Seq<u64>,
) -> u64 {
    lanes_hash(table, lanes, idx, dmg, WIDTH as int)
}

/// Branch bookkeeping is well formed against the ledger: indices never run
/// past a lane's history, and accumulated damage is zero or strictly below
/// the front enemy's hit points.
pub open spec fn tracker_wf(lanes: Seq<Seq<Enemy>>, idx: Seq<usize>, dmg: Seq<u64>) -> bool {
    &&& idx.len() == WIDTH
    &&& dmg.len() == WIDTH
    &&& forall|c: int| 0 <= c < WIDTH ==> #[trigger] idx[c] <= lanes[c].len()
    &&& forall|c: int|
        0 <= c < WIDTH ==> (#[trigger] dmg[c] == 0 || ((idx[c] as int) < lanes[c].len() && (
        dmg[c] as int) < (lanes[c][idx[c] as int].hp as int)))
}

/// Rearrangements of exclusive-or terms used by the incremental updates.
pub proof fn lemma_xor_shuffle(a: u64, b: u64, c: u64, d: u64, s: u64)
    ensures
        ((a ^ b) ^ c) ^ d == ((a ^ d) ^ b) ^ c,
        (a ^ (b ^ s)) ^ s == a ^ b,
        (a ^ (b ^ s)) ^ (c ^ s) == (a ^ b) ^ c,
{
    assert(((a ^ b) ^ c) ^ d == ((a ^ d) ^ b) ^ c) by (bit_vector);
    assert((a ^ (b ^ s)) ^ s == a ^ b) by (bit_vector);
    assert((a ^ (b ^ s)) ^ (c ^ s) == (a ^ b) ^ c) by (bit_vector);
}

/// A lane whose front damage is zero hashes exactly as the plain suffix
/// from its front index.
pub proof fn lemma_lane_hash_fresh(table: ZobristHash, lane: Seq<Enemy>, c: int, idxv: usize)
    ensures
        lane_hash(table, lane, c, idxv, 0) == suffix_hash(table, lane, c, idxv as int),
{
}

/// Changing the bookkeeping of a single lane changes the combined hash by
/// exactly that lane's old and new contributions.
pub proof fn lemma_lanes_hash_point_update(
    table: ZobristHash,
    lanes1: Seq<Seq<Enemy>>,
    idx1: Seq<usize>,
    dmg1: Seq<u64>,
    lanes2: Seq<Seq<Enemy>>,
    idx2: Seq<usize>,
    dmg2: Seq<u64>,
    k: int,
    c: int,
)
    requires
        0 <= k < WIDTH,
        0 <= c <= WIDTH,
        forall|j: int| 0 <= j < WIDTH && j != k ==> #[trigger] lanes2[j] == lanes1[j],
        forall|j: int| 0 <= j < WIDTH && j != k ==> #[trigger] idx2[j] == idx1[j],
        forall|j: int| 0 <= j < WIDTH && j != k ==> #[trigger] dmg2[j] == dmg1[j],
    ensures
        c <= k ==> lanes_hash(table, lanes2, idx2, dmg2, c) == lanes_hash(
            table,
            lanes1,
            idx1,
            dmg1,
            c,
        ),
        c > k ==> lanes_hash(table, lanes2, idx2, dmg2, c) == (lanes_hash(
            table,
            lanes1,
            idx1,
            dmg1,
            c,
        ) ^ lane_hash(table, lanes1[k], k, idx1[k], dmg1[k])) ^ lane_hash(
            table,
            lanes2[k],
            k,
            idx2[k],
            dmg2[k],
        ),
    decreases c,
{
    if c > 0 {
        lemma_lanes_hash_point_update(table, lanes1, idx1, dmg1, lanes2, idx2, dmg2, k, c - 1);
        let a = lanes_hash(table, lanes1, idx1, dmg1, c - 1);
        let lk1 = lane_hash(table, lanes1[k], k, idx1[k], dmg1[k]);
        let lk2 = lane_hash(table, lanes2[k], k, idx2[k], dmg2[k]);
        if c - 1 == k {
            let d = lane_hash(table, lanes2[c - 1], c - 1, idx2[c - 1], dmg2[c - 1]);
            assert(lanes_hash(table, lanes2, idx2, dmg2, c) == a ^ lk2);
            assert(((a ^ lk1) ^ lk1) ^ lk2 == a ^ lk2) by (bit_vector);
        } else if c - 1 > k {
            let d = lane_hash(table, lanes1[c - 1], c - 1, idx1[c - 1], dmg1[c - 1]);
            assert(lane_hash(table, lanes2[c - 1], c - 1, idx2[c - 1], dmg2[c - 1]) == d);
            assert(lanes_hash(table, lanes2, idx2, dmg2, c) == ((a ^ lk1) ^ lk2) ^ d);
            lemma_xor_shuffle(a, lk1, lk2, d, 0);
        }
    }
}

/// Appending an enemy to a lane's history adds exactly its full-health
/// Zobrist value to the suffix hash.
pub proof fn lemma_suffix_hash_push(
    table: ZobristHash,
    lane: Seq<Enemy>,
    c: int,
    j: int,
    e: Enemy,
)
    requires
        0 <= j <= lane.len(),
    ensures
        suffix_hash(table, lane.push(e), c, j) == suffix_hash(table, lane, c, j) ^ table.value(
            e.spawn_turn as int,
            c,
            e.hp as int,
        ),
    decreases lane.len() - j,
{
    let z = table.value(e.spawn_turn as int, c, e.hp as int);
    let l2 = lane.push(e);
    if j == lane.len() {
        assert(l2[j] == e);
        assert(suffix_hash(table, l2, c, j + 1) == 0);
        lemma_xor_basics(z, 0, 0);
    } else {
        lemma_suffix_hash_push(table, lane, c, j + 1, e);
        assert(l2[j] == lane[j]);
        let zj = table.value(lane[j].spawn_turn as int, c, lane[j].hp as int);
        let s = suffix_hash(table, lane, c, j + 1);
        assert(zj ^ (s ^ z) == (zj ^ s) ^ z) by (bit_vector);
    }
}

/// Appending an enemy to a lane's history adds exactly its full-health
/// Zobrist value to that lane's contribution, whatever the branch's front
/// index and damage, provided they are well formed for the old lane.
pub proof fn lemma_lane_hash_push(
    table: ZobristHash,
    lane: Seq<Enemy>,
    c: int,
    idxv: usize,
    dmgv: u64,
    e: Enemy,
)
    requires
        (idxv as int) <= lane.len(),
        dmgv == 0 || (idxv as int) < lane.len(),
    ensures
        lane_hash(table, lane.push(e), c, idxv, dmgv) == lane_hash(table, lane, c, idxv, dmgv)
            ^ table.value(e.spawn_turn as int, c, e.hp as int),
{
    let z = table.value(e.spawn_turn as int, c, e.hp as int);
    let l2 = lane.push(e);
    if (idxv as int) < lane.len() {
        assert(l2[idxv as int] == lane[idxv as int]);
        lemma_suffix_hash_push(table, lane, c, idxv as int + 1, e);
        let f = table.value(lane[idxv as int].spawn_turn as int, c, rem_hp(lane[idxv as int], dmgv));
        let s = suffix_hash(table, lane, c, idxv as int + 1);
        assert(f ^ (s ^ z) == (f ^ s) ^ z) by (bit_vector);
    } else {
        assert(l2[idxv as int] == e);
        assert(rem_hp(e, dmgv) == e.hp as int);
        assert(suffix_hash(table, l2, c, idxv as int + 1) == 0);
        lemma_xor_basics(z, 0, 0);
    }
}

/// Recording a spawn batch changes the from-scratch hash of any well formed
/// branch by exactly the batch's combined Zobrist value, and the branch
/// bookkeeping stays well formed.
pub proof fn lemma_state_hash_after_spawn(
    table: ZobristHash,
    lanes: Seq<Seq<Enemy>>,
    idx: Seq<usize>,
    dmg: Seq<u64>,
    batch: Seq<(u32, u32, usize)>,
    turn: usize,
)
    requires
        lanes.len() == WIDTH,
        tracker_wf(lanes, idx, dmg),
        forall|k: int| 0 <= k < batch.len() ==> (#[trigger] batch[k]).2 < WIDTH,
    ensures
        tracker_wf(crate::enemy::lanes_after_spawn(lanes, batch, turn), idx, dmg),
        state_hash(table, crate::enemy::lanes_after_spawn(lanes, batch, turn), idx, dmg)
            == state_hash(table, lanes, idx, dmg) ^ crate::enemy::batch_xor(table, batch, turn),
    decreases batch.len(),
{
    if batch.len() == 0 {
        lemma_xor_basics(state_hash(table, lanes, idx, dmg), 0, 0);
    } else {
        lemma_state_hash_after_spawn(table, lanes, idx, dmg, batch.drop_last(), turn);
        let prev = crate::enemy::lanes_after_spawn(lanes, batch.drop_last(), turn);
        let k = batch.last().2 as int;
        let e = Enemy { hp: batch.last().0, power: batch.last().1, spawn_turn: turn };
        let next = crate::enemy::lanes_after_spawn(lanes, batch, turn);
        crate::enemy::lemma_spawn_frame(lanes, batch.drop_last(), turn, k);
        assert(next == prev.update(k, prev[k].push(e)));
        lemma_lane_hash_push(table, prev[k], k, idx[k], dmg[k], e);
        lemma_lanes_hash_point_update(
            table,
            prev,
            idx,
            dmg,
            next,
            idx,
            dmg,
            k,
            WIDTH as int,
        );
        let a = state_hash(table, lanes, idx, dmg);
        let b = crate::enemy::batch_xor(table, batch.drop_last(), turn);
        let lk = lane_hash(table, prev[k], k, idx[k], dmg[k]);
        let z = table.value(turn as int, k, e.hp as int);
        assert(state_hash(table, next, idx, dmg) == (((a ^ b) ^ lk) ^ (lk ^ z)));
        assert((((a ^ b) ^ lk) ^ (lk ^ z)) == (a ^ (b ^ z))) by (bit_vector);
        assert(tracker_wf(next, idx, dmg)) by {
            assert(forall|c: int|
                0 <= c < WIDTH && c != k ==> #[trigger] next[c] == prev[c]);
            assert(next[k].len() == prev[k].len() + 1);
            assert(forall|i: int| 0 <= i < prev[k].len() ==> #[trigger] next[k][i] == prev[k][i]);
        }
    }
}

/// A branch whose every lane cursor has passed its lane's whole history
/// hashes to zero; in particular a fresh branch against an empty ledger.
pub proof fn lemma_exhausted_hash_zero(
    table: ZobristHash,
    lanes: Seq<Seq<Enemy>>,
    idx: Seq<usize>,
    dmg: Seq<u64>,
    c: int,
)
    requires
        0 <= c <= WIDTH,
        forall|j: int| 0 <= j < WIDTH ==> (#[trigger] idx[j] as int) >= lanes[j].len(),
    ensures
        lanes_hash(table, lanes, idx, dmg, c) == 0,
    decreases c,
{
    if c > 0 {
        lemma_exhausted_hash_zero(table, lanes, idx, dmg, c - 1);
        lemma_xor_basics(0, 0, 0);
    }
}

/// A branch's per-lane cursors into the shared ledger.
#[derive(Clone, Copy, Debug)]
pub struct EnemyState {
    /// For each lane, the position of the first enemy not yet resolved.
    pub indices: [usize; WIDTH],
    /// For each lane, the damage dealt to the enemy at `indices[lane]`.
    pub damages: [u64; WIDTH],
}

/// Whether `clean_up_enemies` retires lane `c`'s front enemy under `flag`
/// at `turn`.
pub open spec fn lane_cleans(
    lanes: Seq<Seq<Enemy>>,
    idx: Seq<usize>,
    flag: u32,
    turn: usize,
    c: int,
) -> bool {
    &&& (flag >> (c as u32)) & 1 == 1
    &&& (idx[c] as int) < lanes[c].len()
    &&& lanes[c][idx[c] as int].spec_is_out_of_range(turn)
}

/// The per-lane indices after a clean-up pass.
pub open spec fn cleaned_indices(
    lanes: Seq<Seq<Enemy>>,
    idx: Seq<usize>,
    flag: u32,
    turn: usize,
) -> Seq<usize> {
    Seq::new(WIDTH as nat, |c: int| if lane_cleans(lanes, idx, flag, turn, c) {
        (idx[c] + 1) as usize
    } else {
        idx[c]
    })
}

/// The per-lane damages after a clean-up pass.
pub open spec fn cleaned_damages(
    lanes: Seq<Seq<Enemy>>,
    idx: Seq<usize>,
    dmg: Seq<u64>,
    flag: u32,
    turn: usize,
) -> Seq<u64> {
    Seq::new(WIDTH as nat, |c: int| if lane_cleans(lanes, idx, flag, turn, c) {
        0u64
    } else {
        dmg[c]
    })
}

impl EnemyState {
    /// Fresh bookkeeping: all cursors at the start, no damage anywhere.
    pub fn new() -> (r: Self)
        ensures
            r.indices@ =~= Seq::new(WIDTH as nat, |c: int| 0usize),
            r.damages@ =~= Seq::new(WIDTH as nat, |c: int| 0u64),
    {
        Self { indices: [0; WIDTH], damages: [0; WIDTH] }
    }

    /// The front enemy of `column`, if its history is not exhausted.
    pub fn get(&self, enemies: &EnemyCollection, column: usize) -> (r: Option<Enemy>)
        requires
            enemies.wf(),
            tracker_wf(enemies.lanes(), self.indices@, self.damages@),
            column < WIDTH,
        ensures
            (self.indices@[column as int] as int) < enemies.lanes()[column as int].len() ==> r
                == Some(enemies.lanes()[column as int][self.indices@[column as int] as int]),
            (self.indices@[column as int] as int) >= enemies.lanes()[column as int].len() ==> r
                is None,
    {
        enemies.get(column, self.indices[column])
    }

    /// Whether `column` still has an unresolved enemy.
    pub fn has_enemy(&self, enemies: &EnemyCollection, column: usize) -> (r: bool)
        requires
            enemies.wf(),
            tracker_wf(enemies.lanes(), self.indices@, self.damages@),
            column < WIDTH,
        ensures
            r == ((self.indices@[column as int] as int) < enemies.lanes()[column as int].len()),
    {
        self.get(enemies, column).is_some()
    }

    /// Whether the front enemy of `column` sits at the bottom row at `turn`,
    /// crashing a player in that lane.
    pub fn crash(&self, enemies: &EnemyCollection, column: usize, turn: usize) -> (r: bool)
        requires
            enemies.wf(),
            tracker_wf(enemies.lanes(), self.indices@, self.damages@),
            column < WIDTH,
        ensures
            r == ((self.indices@[column as int] as int) < enemies.lanes()[column as int].len()
                && enemies.lanes()[column as int][self.indices@[column as int] as int].spec_is_bottom(
                turn,
            )),
    {
        match self.get(enemies, column) {
            Some(enemy) => enemy.is_bottom(turn),
            None => false,
        }
    }

    /// Applies one attack of strength `attack` to the front enemy of
    /// `column`, toggling the branch hash from the enemy's old remaining
    /// hit points to its new ones.  Returns `(hp, power)` of the enemy if
    /// the attack destroys it (advancing the lane's cursor and resetting
    /// its damage), and `(0, 0)` otherwise.
    pub fn damage(
        &mut self,
        enemies: &EnemyCollection,
        column: usize,
        attack: u64,
        hashes: &ZobristHash,
        hash: &mut u64,
    ) -> (r: (u32, u32))
        requires
            enemies.wf(),
            hashes.wf(),
            tracker_wf(enemies.lanes(), old(self).indices@, old(self).damages@),
            column < WIDTH,
            (old(self).indices@[column as int] as int) < enemies.lanes()[column as int].len(),
            attack <= MAX_ATTACK,
            *old(hash) == state_hash(
                *hashes,
                enemies.lanes(),
                old(self).indices@,
                old(self).damages@,
            ),
        ensures
            ({
                let lanes = enemies.lanes();
                let c = column as int;
                let e = lanes[c][old(self).indices@[c] as int];
                let dnew = old(self).damages@[c] + attack;
                &&& tracker_wf(lanes, final(self).indices@, final(self).damages@)
                &&& *final(hash) == state_hash(
                    *hashes,
                    lanes,
                    final(self).indices@,
                    final(self).damages@,
                )
                &&& (dnew >= e.hp as int) ==> {
                    &&& r == (e.hp, e.power)
                    &&& final(self).indices@ == old(self).indices@.update(
                        c,
                        (old(self).indices@[c] + 1) as usize,
                    )
                    &&& final(self).damages@ == old(self).damages@.update(c, 0u64)
                }
                &&& (dnew < e.hp as int) ==> {
                    &&& r == (0u32, 0u32)
                    &&& final(self).indices@ == old(self).indices@
                    &&& final(self).damages@ == old(self).damages@.update(c, dnew as u64)
                }
            }),
    {
        let ghost lanes = enemies.lanes();
        let ghost idx0 = self.indices@;
        let ghost dmg0 = self.damages@;
        let e = self.get(enemies, column).unwrap();
        let d0: u64 = self.damages[column];
        let rem0: u32 = e.hp - (d0 as u32);
        let z0 = hashes.get(e.spawn_turn, column, rem0);
        *hash = *hash ^ z0;
        let dnew: u64 = d0 + attack;
        let ghost c = column as int;
        let ghost s = suffix_hash(*hashes, lanes[c], c, idx0[c] as int + 1);
        let ghost zr = hashes.value(e.spawn_turn as int, c, rem_hp(e, d0));
        proof {
            assert(rem_hp(e, d0) == rem0 as int);
            assert(lane_hash(*hashes, lanes[c], c, idx0[c], dmg0[c]) == zr ^ s);
        }
        if dnew >= (e.hp as u64) {
            self.damages[column] = 0;
            self.indices[column] = self.indices[column] + 1;
            let z1 = hashes.get(e.spawn_turn, column, 0);
            *hash = *hash ^ z1;
            proof {
                let idx1 = idx0.update(c, (idx0[c] + 1) as usize);
                let dmg1 = dmg0.update(c, 0u64);
                assert(self.indices@ == idx1);
                assert(self.damages@ == dmg1);
                lemma_lanes_hash_point_update(
                    *hashes,
                    lanes,
                    idx0,
                    dmg0,
                    lanes,
                    idx1,
                    dmg1,
                    c,
                    WIDTH as int,
                );
                lemma_lane_hash_fresh(*hashes, lanes[c], c, idx1[c]);
                assert(lane_hash(*hashes, lanes[c], c, idx1[c], dmg1[c]) == s);
                let h0 = *old(hash);
                assert((h0 ^ (zr ^ s)) ^ s == h0 ^ zr) by (bit_vector);
                assert(z1 == 0);
                lemma_xor_basics(h0 ^ zr, 0, 0);
            }
            (e.hp, e.power)
        } else {
            self.damages[column] = dnew;
            let remn: u32 = e.hp - (dnew as u32);
            let z1 = hashes.get(e.spawn_turn, column, remn);
            *hash = *hash ^ z1;
            proof {
                let dmg1 = dmg0.update(c, dnew);
                assert(self.damages@ == dmg1);
                lemma_lanes_hash_point_update(
                    *hashes,
                    lanes,
                    idx0,
                    dmg0,
                    lanes,
                    idx0,
                    dmg1,
                    c,
                    WIDTH as int,
                );
                let zn = hashes.value(e.spawn_turn as int, c, rem_hp(e, dnew));
                assert(rem_hp(e, dnew) == remn as int);
                assert(lane_hash(*hashes, lanes[c], c, idx0[c], dmg1[c]) == zn ^ s);
                let h0 = *old(hash);
                assert((h0 ^ (zr ^ s)) ^ (zn ^ s) == (h0 ^ zr) ^ zn) by (bit_vector);
            }
            (0, 0)
        }
    }

    /// Retires, for every lane flagged for `turn` in the ledger's expiry
    /// bitmask, a front enemy that has silently passed the bottom of the
    /// track: its hash contribution is toggled out, its damage discarded,
    /// and the lane's cursor advanced, with no combat credit.
    pub fn clean_up_enemies(
        &mut self,
        enemies: &EnemyCollection,
        turn: usize,
        hashes: &ZobristHash,
        hash: &mut u64,
    )
        requires
            enemies.wf(),
            hashes.wf(),
            tracker_wf(enemies.lanes(), old(self).indices@, old(self).damages@),
            turn < MAX_TURN,
            *old(hash) == state_hash(
                *hashes,
                enemies.lanes(),
                old(self).indices@,
                old(self).damages@,
            ),
        ensures
            ({
                let lanes = enemies.lanes();
                let flag = enemies.flags()[turn as int];
                &&& final(self).indices@ == cleaned_indices(lanes, old(self).indices@, flag, turn)
                &&& final(self).damages@ == cleaned_damages(
                    lanes,
                    old(self).indices@,
                    old(self).damages@,
                    flag,
                    turn,
                )
                &&& tracker_wf(lanes, final(self).indices@, final(self).damages@)
                &&& *final(hash) == state_hash(
                    *hashes,
                    lanes,
                    final(self).indices@,
                    final(self).damages@,
                )
            }),
    {
        let ghost lanes = enemies.lanes();
        let ghost idx0 = self.indices@;
        let ghost dmg0 = self.damages@;
        let flag = enemies.clean_flag(turn);
        let mut column: usize = 0;
        while column < WIDTH
            invariant
                enemies.wf(),
                hashes.wf(),
                turn < MAX_TURN,
                lanes == enemies.lanes(),
                flag == enemies.flags()[turn as int],
                column <= WIDTH,
                idx0.len() == WIDTH,
                dmg0.len() == WIDTH,
                tracker_wf(lanes, idx0, dmg0),
                self.indices@.len() == WIDTH,
                self.damages@.len() == WIDTH,
                forall|c: int|
                    0 <= c < column ==> #[trigger] self.indices@[c] == cleaned_indices(
                        lanes,
                        idx0,
                        flag,
                        turn,
                    )[c],
                forall|c: int|
                    0 <= c < column ==> #[trigger] self.damages@[c] == cleaned_damages(
                        lanes,
                        idx0,
                        dmg0,
                        flag,
                        turn,
                    )[c],
                forall|c: int| column <= c < WIDTH ==> #[trigger] self.indices@[c] == idx0[c],
                forall|c: int| column <= c < WIDTH ==> #[trigger] self.damages@[c] == dmg0[c],
                tracker_wf(lanes, self.indices@, self.damages@),
                *hash == state_hash(*hashes, lanes, self.indices@, self.damages@),
            decreases WIDTH - column,
        {
            let ghost idx_pre = self.indices@;
            let ghost dmg_pre = self.damages@;
            if (flag >> (column as u32)) & 1 == 1 {
                let front = self.get(enemies, column);
                if let Some(enemy) = front {
                    if enemy.is_out_of_range(turn) {
                        let ghost c = column as int;
                        let d0: u64 = self.damages[column];
                        let rem0: u32 = enemy.hp - (d0 as u32);
                        let z0 = hashes.get(enemy.spawn_turn, column, rem0);
                        let ghost h0 = *hash;
                        *hash = *hash ^ z0;
                        self.damages[column] = 0;
                        self.indices[column] = self.indices[column] + 1;
                        proof {
                            let s = suffix_hash(*hashes, lanes[c], c, idx_pre[c] as int + 1);
                            let zr = hashes.value(enemy.spawn_turn as int, c, rem_hp(enemy, d0));
                            assert(rem_hp(enemy, d0) == rem0 as int);
                            assert(lane_hash(*hashes, lanes[c], c, idx_pre[c], dmg_pre[c]) == zr
                                ^ s);
                            let idx1 = idx_pre.update(c, (idx_pre[c] + 1) as usize);
                            let dmg1 = dmg_pre.update(c, 0u64);
                            assert(self.indices@ == idx1);
                            assert(self.damages@ == dmg1);
                            lemma_lanes_hash_point_update(
                                *hashes,
                                lanes,
                                idx_pre,
                                dmg_pre,
                                lanes,
                                idx1,
                                dmg1,
                                c,
                                WIDTH as int,
                            );
                            lemma_lane_hash_fresh(*hashes, lanes[c], c, idx1[c]);
                            assert(lane_hash(*hashes, lanes[c], c, idx1[c], dmg1[c]) == s);
                            assert((h0 ^ (zr ^ s)) ^ s == h0 ^ zr) by (bit_vector);
                        }
                    }
                }
            }
            proof {
                let c = column as int;
                assert(idx_pre[c] == idx0[c] && dmg_pre[c] == dmg0[c]);
                if lane_cleans(lanes, idx0, flag, turn, c) {
                    assert(self.indices@[c] == idx0[c] + 1);
                    assert(self.damages@[c] == 0);
                } else {
                    assert(self.indices@[c] == idx0[c]);
                    assert(self.damages@[c] == dmg0[c]);
                }
                assert(self.indices@[c] == cleaned_indices(lanes, idx0, flag, turn)[c]);
                assert(self.damages@[c] == cleaned_damages(lanes, idx0, dmg0, flag, turn)[c]);
            }
            column += 1;
        }
        proof {
            assert(self.indices@ =~= cleaned_indices(lanes, idx0, flag, turn));
            assert(self.damages@ =~= cleaned_damages(lanes, idx0, dmg0, flag, turn));
        }
    }
}

/// Running the clean-up pass twice with no turn advance between leaves
/// exactly the state of one run.  One pass can expose a new front enemy;
/// the premise below says that the newly exposed enemy has not itself
/// already expired, which holds whenever the pass is run every turn, as
/// the engine does.  With two same-lane enemies simultaneously expired,
/// only the front one is retired per pass and the property genuinely
/// fails, so that premise is assumed here.
pub proof fn lemma_clean_up_idempotent(
    lanes: Seq<Seq<Enemy>>,
    idx: Seq<usize>,
    dmg: Seq<u64>,
    flag: u32,
    turn: usize,
)
    requires
        idx.len() == WIDTH,
        dmg.len() == WIDTH,
        forall|c: int| 0 <= c < WIDTH ==> (#[trigger] lanes[c]).len() <= usize::MAX,
        forall|c: int|
            0 <= c < WIDTH && #[trigger] lane_cleans(lanes, idx, flag, turn, c) && idx[c]
                + 1 < lanes[c].len() ==> !lanes[c][idx[c] + 1].spec_is_out_of_range(turn),
    ensures
        cleaned_indices(lanes, cleaned_indices(lanes, idx, flag, turn), flag, turn)
            == cleaned_indices(lanes, idx, flag, turn),
        cleaned_damages(
            lanes,
            cleaned_indices(lanes, idx, flag, turn),
            cleaned_damages(lanes, idx, dmg, flag, turn),
            flag,
            turn,
        ) == cleaned_damages(lanes, idx, dmg, flag, turn),
{
    let idx1 = cleaned_indices(lanes, idx, flag, turn);
    let dmg1 = cleaned_damages(lanes, idx, dmg, flag, turn);
    assert forall|c: int| 0 <= c < WIDTH implies !lane_cleans(lanes, idx1, flag, turn, c) by {
        if lane_cleans(lanes, idx, flag, turn, c) {
            assert(idx1[c] == idx[c] + 1);
        } else {
            assert(idx1[c] == idx[c]);
        }
    }
    assert(cleaned_indices(lanes, idx1, flag, turn) =~= idx1);
    assert(cleaned_damages(lanes, idx1, dmg1, flag, turn) =~= dmg1);
}

} // verus!
