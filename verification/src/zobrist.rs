//! The Zobrist table: pseudo-random 64-bit values keyed by
//! `(spawn turn, lane, remaining hit points)`, fixed to zero at zero
//! remaining hit points so a destroyed enemy contributes nothing.

use vstd::prelude::*;
use vstd::arithmetic::div_mod::lemma_mod_multiples_vanish;
use vstd::pervasive::VecAdditionalExecFns;
use crate::rng::lemma_rng_state_after_snoc;
use crate::rng::rng_out_at;
use crate::rng::rng_state_after;
use crate::rng::xoshiro_from_seed;
use crate::rng::Xoshiro256;
use crate::MAX_HP;
use crate::MAX_TURN;
use crate::WIDTH;

verus! {

/// Exclusive-or keeps no memory of order: it is commutative and
/// associative, `0` is its unit and every value cancels itself.
pub proof fn lemma_xor_basics(a: u64, b: u64, c: u64)
    ensures
        a ^ 0 == a,
        0u64 ^ a == a,
        a ^ a == 0,
        a ^ b == b ^ a,
        (a ^ b) ^ c == a ^ (b ^ c),
{
    assert(a ^ 0 == a) by (bit_vector);
    assert(0u64 ^ a == a) by (bit_vector);
    assert(a ^ a == 0) by (bit_vector);
    assert(a ^ b == b ^ a) by (bit_vector);
    assert((a ^ b) ^ c == a ^ (b ^ c)) by (bit_vector);
}

/// Position of the key `(turn, col, hp)` in the flat table.
pub open spec fn table_index(turn: int, col: int, hp: int) -> int {
    (turn * (WIDTH as int) + col) * (MAX_HP as int) + hp
}

/// Which draw of the generator fills the entry for `(turn, col, hp)`,
/// the zero entry of every `(turn, col)` block being skipped.
pub open spec fn stream_index(turn: int, col: int, hp: int) -> int {
    (turn * (WIDTH as int) + col) * ((MAX_HP - 1) as int) + hp - 1
}

/// The process-wide table, read-only after construction.
pub struct ZobristHash {
    pub hashes: Vec<u64>,
}

impl ZobristHash {
    /// The table entry for `(turn, col, hp)`.
    pub open spec fn value(self, turn: int, col: int, hp: int) -> u64 {
        self.hashes@[table_index(turn, col, hp)]
    }

    /// The table has its full size and a zero entry wherever the remaining
    /// hit points are zero.
    pub open spec fn wf(self) -> bool {
        &&& self.hashes@.len() == (MAX_TURN as int) * (WIDTH as int) * (MAX_HP as int)
        &&& forall|t: int, c: int|
            0 <= t < MAX_TURN && 0 <= c < WIDTH ==> #[trigger] self.value(t, c, 0) == 0
    }

    /// Every nonzero-hit-point entry is exactly one draw of the generator
    /// seeded at `init`, in row-major key order: the table is a pure
    /// function of the seed.
    pub open spec fn seeded(self, init: Xoshiro256) -> bool {
        forall|t: int, c: int, h: int|
            0 <= t < MAX_TURN && 0 <= c < WIDTH && 1 <= h < MAX_HP ==> #[trigger] self.value(
                t,
                c,
                h,
            ) == rng_out_at(init, stream_index(t, c, h) as nat)
    }

    /// Builds the table from a fixed seed.
    pub fn new() -> (r: Self)
        ensures
            r.wf(),
            r.seeded(xoshiro_from_seed(42)),
    {
        let total: usize = MAX_TURN * WIDTH * MAX_HP;
        let mut hashes: Vec<u64> = Vec::new();
        let mut i: usize = 0;
        while i < total
            invariant
                i <= total,
                hashes@.len() == i,
                forall|p: int| 0 <= p < i ==> hashes@[p] == 0,
            decreases total - i,
        {
            hashes.push(0);
            i += 1;
        }

        let ghost init = xoshiro_from_seed(42);
        let mut rng = Xoshiro256::new(42);
        let mut t: usize = 0;
        while t < MAX_TURN
            invariant
                t <= MAX_TURN,
                hashes@.len() == total,
                total == (MAX_TURN as int) * (WIDTH as int) * (MAX_HP as int),
                rng == rng_state_after(init, (t * (WIDTH as int) * ((MAX_HP - 1) as int)) as nat),
                forall|p: int|
                    0 <= p < total && p % (MAX_HP as int) == 0 ==> #[trigger] hashes@[p] == 0,
                forall|t2: int, c2: int, h2: int|
                    0 <= t2 < t && 0 <= c2 < WIDTH && 1 <= h2 < MAX_HP ==> #[trigger] hashes@[table_index(
                        t2,
                        c2,
                        h2,
                    )] == rng_out_at(init, stream_index(t2, c2, h2) as nat),
            decreases MAX_TURN - t,
        {
            let mut c: usize = 0;
            while c < WIDTH
                invariant
                    t < MAX_TURN,
                    c <= WIDTH,
                    hashes@.len() == total,
                    total == (MAX_TURN as int) * (WIDTH as int) * (MAX_HP as int),
                    rng == rng_state_after(
                        init,
                        ((t * (WIDTH as int) + c) * ((MAX_HP - 1) as int)) as nat,
                    ),
                    forall|p: int|
                        0 <= p < total && p % (MAX_HP as int) == 0 ==> #[trigger] hashes@[p] == 0,
                    forall|t2: int, c2: int, h2: int|
                        0 <= t2 < MAX_TURN && 0 <= c2 < WIDTH && 1 <= h2 < MAX_HP && (t2 < t || (
                        t2 == t && c2 < c)) ==> #[trigger] hashes@[table_index(t2, c2, h2)]
                            == rng_out_at(init, stream_index(t2, c2, h2) as nat),
                decreases WIDTH - c,
            {
                let base: usize = (t * WIDTH + c) * MAX_HP;
                let mut h: usize = 1;
                while h < MAX_HP
                    invariant
                        t < MAX_TURN,
                        c < WIDTH,
                        1 <= h <= MAX_HP,
                        base == ((t * (WIDTH as int)) + c) * (MAX_HP as int),
                        hashes@.len() == total,
                        total == (MAX_TURN as int) * (WIDTH as int) * (MAX_HP as int),
                        rng == rng_state_after(
                            init,
                            ((t * (WIDTH as int) + c) * ((MAX_HP - 1) as int) + h - 1) as nat,
                        ),
                        forall|p: int|
                            0 <= p < total && p % (MAX_HP as int) == 0 ==> #[trigger] hashes@[p]
                                == 0,
                        forall|t2: int, c2: int, h2: int|
                            0 <= t2 < MAX_TURN && 0 <= c2 < WIDTH && 1 <= h2 < MAX_HP && (t2 < t
                                || (t2 == t && c2 < c) || (t2 == t && c2 == c && h2 < h))
                                ==> #[trigger] hashes@[table_index(t2, c2, h2)] == rng_out_at(
                                init,
                                stream_index(t2, c2, h2) as nat,
                            ),
                    decreases MAX_HP - h,
                {
                    let ghost n = ((t * (WIDTH as int) + c) * ((MAX_HP - 1) as int) + h
                        - 1) as nat;
                    let v = rng.next();
                    proof {
                        lemma_mod_multiples_vanish(
                            (t * (WIDTH as int)) + c,
                            h as int,
                            MAX_HP as int,
                        );
                        lemma_rng_state_after_snoc(init, n);
                        assert(v == rng_out_at(init, n));
                        assert(n == stream_index(t as int, c as int, h as int));
                    }
                    hashes.set(base + h, v);
                    proof {
                        assert forall|t2: int, c2: int, h2: int|
                            0 <= t2 < MAX_TURN && 0 <= c2 < WIDTH && 1 <= h2 < MAX_HP && (t2 < t
                                || (t2 == t && c2 < c) || (t2 == t && c2 == c && h2 < h
                                + 1)) implies #[trigger] hashes@[table_index(t2, c2, h2)]
                            == rng_out_at(init, stream_index(t2, c2, h2) as nat) by {
                            if t2 == t && c2 == c && h2 == h {
                            } else {
                                assert(t2 * (WIDTH as int) + c2 <= t * (WIDTH as int) + c);
                                assert(table_index(t2, c2, h2) != base + h);
                            }
                        }
                    }
                    h += 1;
                }
                proof {
                    assert((t * (WIDTH as int) + c) * ((MAX_HP - 1) as int) + ((MAX_HP
                        - 1) as int) == (t * (WIDTH as int) + (c + 1)) * ((MAX_HP - 1) as int))
                        by (nonlinear_arith);
                }
                c += 1;
            }
            proof {
                assert((t * (WIDTH as int) + (WIDTH as int)) * ((MAX_HP - 1) as int) == ((t + 1)
                    * (WIDTH as int)) * ((MAX_HP - 1) as int)) by (nonlinear_arith);
            }
            t += 1;
        }

        let r = Self { hashes };
        proof {
            assert forall|t2: int, c2: int|
                0 <= t2 < MAX_TURN && 0 <= c2 < WIDTH implies #[trigger] r.value(t2, c2, 0)
                == 0 by {
                lemma_mod_multiples_vanish(t2 * (WIDTH as int) + c2, 0, MAX_HP as int);
            }
        }
        r
    }

    /// Reads the table entry for `(turn, col, hp)`.
    pub fn get(&self, turn: usize, col: usize, hp: u32) -> (r: u64)
        requires
            self.wf(),
            turn < MAX_TURN,
            col < WIDTH,
            (hp as int) < (MAX_HP as int),
        ensures
            r == self.value(turn as int, col as int, hp as int),
    {
        self.hashes[(turn * WIDTH + col) * MAX_HP + (hp as usize)]
    }
}

} // verus!
