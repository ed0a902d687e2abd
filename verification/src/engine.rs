//! One real turn of the decision loop, as verified steps: record the
//! turn's revealed spawns in the shared ledger while keeping the real
//! state's hash consistent, run the beam search for the committed moves,
//! and advance the single real state by one of them.  The surrounding
//! input and output live outside the library and hand in plain values.

use vstd::prelude::*;
use crate::beam::search;
use crate::enemy::batch_wf;
use crate::enemy::lanes_after_spawn;
use crate::enemy::EnemyCollection;
use crate::state::attack_rel;
use crate::state::lemma_index_sum_zero;
use crate::state::spec_crash;
use crate::state::spec_move;
use crate::state::Direction;
use crate::state::State;
use crate::tracker::cleaned_damages;
use crate::tracker::cleaned_indices;
use crate::tracker::lemma_state_hash_after_spawn;
use crate::tracker::lemma_exhausted_hash_zero;
use crate::zobrist::ZobristHash;
use crate::DEFAULT_SIMULATION_LEN;
use crate::MAX_HP;
use crate::MAX_TURN;
use crate::TURN_STRIDE;
use crate::WIDTH;

verus! {

broadcast use vstd::array::group_array_axioms;

/// The real game: the single live state, the shared ledger of spawns, and
/// the Zobrist table, kept mutually consistent.
pub struct Engine {
    /// The one real game state.
    pub state: State,
    /// The shared, append-only spawn ledger.
    pub enemy_collection: EnemyCollection,
    /// The process-wide Zobrist table.
    pub zobrist: ZobristHash,
}

impl Engine {
    /// The three parts are mutually consistent: ledger and table well
    /// formed, state well formed against the ledger, and the state's
    /// incremental hash equal to its from-scratch value.
    pub open spec fn inv(self) -> bool {
        &&& self.enemy_collection.wf()
        &&& self.zobrist.wf()
        &&& self.state.wf(self.enemy_collection)
        &&& self.state.hash_ok(self.enemy_collection, self.zobrist)
    }

    /// A fresh run: empty ledger, the player at the center lane with
    /// power 100 at turn zero.
    pub fn new() -> (r: Self)
        ensures
            r.inv(),
            r.state.turn == 0,
            r.state.power == 100,
            r.state.raw_score == 0,
            r.state.column == crate::CENTER,
            forall|c: int| 0 <= c < WIDTH ==> (#[trigger] r.enemy_collection.lanes()[c]).len()
                == 0,
    {
        let state = State::new();
        let enemy_collection = EnemyCollection::new();
        let zobrist = ZobristHash::new();
        proof {
            lemma_index_sum_zero(state.enemies.indices@, WIDTH as int);
            lemma_exhausted_hash_zero(
                zobrist,
                enemy_collection.lanes(),
                state.enemies.indices@,
                state.enemies.damages@,
                WIDTH as int,
            );
        }
        Self { state, enemy_collection, zobrist }
    }

    /// Whether this turn's spawn batch can be recorded: the run is not
    /// over, every lane is in range, every enemy's hit points are below
    /// the Zobrist bound, no lane appears twice, and every touched lane's
    /// newest enemy is older than the current turn.
    pub fn batch_ok(&self, spawns: &Vec<(u32, u32, usize)>) -> (r: bool)
        requires
            self.enemy_collection.wf(),
        ensures
            r == (self.state.turn < MAX_TURN && batch_wf(
                self.enemy_collection.lanes(),
                spawns@,
                self.state.turn,
            )),
    {
        let turn = self.state.turn;
        if turn >= MAX_TURN {
            return false;
        }
        let mut seen = [false; WIDTH];
        let mut k: usize = 0;
        while k < spawns.len()
            invariant
                self.enemy_collection.wf(),
                turn == self.state.turn,
                turn < MAX_TURN,
                k <= spawns@.len(),
                seen@.len() == WIDTH,
                forall|k2: int|
                    0 <= k2 < k ==> ((#[trigger] spawns@[k2]).2 < WIDTH && (spawns@[k2].0 as int)
                        < (MAX_HP as int) && {
                        let lane = self.enemy_collection.lanes()[spawns@[k2].2 as int];
                        lane.len() == 0 || lane.last().spawn_turn < turn
                    }),
                forall|k1: int, k2: int|
                    0 <= k1 < k2 < k ==> (#[trigger] spawns@[k1]).2 != (#[trigger] spawns@[k2]).2,
                forall|c: int|
                    0 <= c < WIDTH ==> ((#[trigger] seen@[c]) <==> exists|k2: int|
                        0 <= k2 < k && (#[trigger] spawns@[k2]).2 == c),
            decreases spawns@.len() - k,
        {
            let (hp, _reward, col) = spawns[k];
            if col >= WIDTH {
                return false;
            }
            if (hp as usize) >= MAX_HP {
                return false;
            }
            if seen[col] {
                proof {
                    let k1 = choose|k1: int| 0 <= k1 < k && (#[trigger] spawns@[k1]).2 == col as int;
                    assert(spawns@[k1].2 == spawns@[k as int].2);
                }
                return false;
            }
            let len = self.enemy_collection.lane_len(col);
            if len > 0 {
                let last = self.enemy_collection.get(col, len - 1).unwrap();
                if last.spawn_turn >= turn {
                    return false;
                }
            }
            seen[col] = true;
            k += 1;
        }
        true
    }

    /// Records one turn's spawn batch in the ledger and folds the new
    /// enemies into the real state's hash, or refuses the batch whole.
    pub fn ingest(&mut self, spawns: &Vec<(u32, u32, usize)>) -> (ok: bool)
        requires
            old(self).inv(),
        ensures
            final(self).inv(),
            ok == (old(self).state.turn < MAX_TURN && batch_wf(
                old(self).enemy_collection.lanes(),
                spawns@,
                old(self).state.turn,
            )),
            ok ==> final(self).enemy_collection.lanes() == lanes_after_spawn(
                old(self).enemy_collection.lanes(),
                spawns@,
                old(self).state.turn,
            ),
            ok && old(self).state.turn + crate::HEIGHT < MAX_TURN ==> final(self)
                .enemy_collection.flags() == old(self).enemy_collection.flags().update(
                (old(self).state.turn + crate::HEIGHT) as int,
                crate::enemy::batch_mask(spawns@),
            ),
            ok && old(self).state.turn + crate::HEIGHT >= MAX_TURN ==> final(self)
                .enemy_collection.flags() == old(self).enemy_collection.flags(),
            final(self).state.turn == old(self).state.turn,
            final(self).state.column == old(self).state.column,
            final(self).state.power == old(self).state.power,
            final(self).state.raw_score == old(self).state.raw_score,
            final(self).state.enemies == old(self).state.enemies,
            final(self).zobrist == old(self).zobrist,
            !ok ==> *final(self) == *old(self),
    {
        if !self.batch_ok(spawns) {
            return false;
        }
        let t = self.state.turn;
        proof {
            lemma_state_hash_after_spawn(
                self.zobrist,
                self.enemy_collection.lanes(),
                self.state.enemies.indices@,
                self.state.enemies.damages@,
                spawns@,
                t,
            );
        }
        self.enemy_collection.spawn(spawns, &self.zobrist, &mut self.state.hash, t);
        true
    }

    /// Runs the beam search from the real state and returns the moves to
    /// commit this real turn: either no branch of the search's final
    /// frontier survived and the engine stays put, or the result is the
    /// committed-move prefix of a maximal-score branch of that frontier.
    pub fn decide(&self, beam_width: usize) -> (r: [Direction; TURN_STRIDE])
        requires
            self.inv(),
            1 <= beam_width,
        ensures
            ({
                let sim = if MAX_TURN - self.state.turn < DEFAULT_SIMULATION_LEN {
                    (MAX_TURN - self.state.turn) as int
                } else {
                    DEFAULT_SIMULATION_LEN as int
                };
                crate::beam::search_result(
                    r@,
                    self.state,
                    self.enemy_collection.lanes(),
                    self.enemy_collection.flags(),
                    sim,
                    beam_width as int,
                )
            }),
    {
        let remaining = MAX_TURN - self.state.turn;
        let sim = if remaining < DEFAULT_SIMULATION_LEN {
            remaining
        } else {
            DEFAULT_SIMULATION_LEN
        };
        search(&self.state, &self.enemy_collection, &self.zobrist, beam_width, sim)
    }

    /// Cleans up this turn's expired enemies and advances the real state
    /// by one committed move; reports whether the player survived, or
    /// nothing when the run is already over.
    pub fn advance(&mut self, direction: Direction) -> (r: Option<bool>)
        requires
            old(self).inv(),
        ensures
            final(self).inv(),
            final(self).enemy_collection == old(self).enemy_collection,
            final(self).zobrist == old(self).zobrist,
            old(self).state.turn >= MAX_TURN ==> r is None && *final(self) == *old(self),
            old(self).state.turn < MAX_TURN ==> ({
                let lanes = old(self).enemy_collection.lanes();
                let t = old(self).state.turn;
                let flag = old(self).enemy_collection.flags()[t as int];
                let ci = cleaned_indices(lanes, old(self).state.enemies.indices@, flag, t);
                let cd = cleaned_damages(
                    lanes,
                    old(self).state.enemies.indices@,
                    old(self).state.enemies.damages@,
                    flag,
                    t,
                );
                let col1 = spec_move(old(self).state.column as int, direction);
                &&& r == Some(!spec_crash(lanes, ci, old(self).state.column as int, t)
                    && !spec_crash(lanes, ci, col1, t))
                &&& final(self).state.turn == t + 1
                &&& final(self).state.column == col1
                &&& attack_rel(
                    lanes,
                    col1,
                    ci,
                    cd,
                    old(self).state.power,
                    old(self).state.raw_score,
                    final(self).state.enemies.indices@,
                    final(self).state.enemies.damages@,
                    final(self).state.power,
                    final(self).state.raw_score,
                )
                &&& final(self).state.power >= old(self).state.power
                &&& final(self).state.raw_score >= old(self).state.raw_score
            }),
    {
        if self.state.turn >= MAX_TURN {
            return None;
        }
        self.state.clean_up(&self.enemy_collection, &self.zobrist);
        let alive = self.state.progress_turn(&self.enemy_collection, &self.zobrist, direction);
        Some(alive)
    }

    /// The real state's turn counter.
    pub fn turn(&self) -> (r: usize)
        ensures
            r == self.state.turn,
    {
        self.state.turn
    }

    /// The banked raw score of the real state.
    pub fn raw_score(&self) -> (r: u64)
        ensures
            r == self.state.raw_score,
    {
        self.state.raw_score
    }

    /// The real state's accumulated power.
    pub fn power(&self) -> (r: u64)
        ensures
            r == self.state.power,
    {
        self.state.power
    }

    /// The real state's lane.
    pub fn column(&self) -> (r: usize)
        ensures
            r == self.state.column,
    {
        self.state.column
    }
}

} // verus!
