//! The beam search engine: repeated turn-expansion over per-lane buckets of
//! branches, each simulated turn sorting every bucket best-first, pruning
//! later duplicates of any Zobrist hash, and truncating to the beam width.

use vstd::prelude::*;
use crate::enemy::EnemyCollection;
use crate::state::attack_rel;
use crate::state::spec_crash;
use crate::state::spec_move;
use crate::state::spec_score;
use crate::state::Direction;
use crate::state::State;
use crate::tracker::cleaned_damages;
use crate::tracker::cleaned_indices;
use crate::zobrist::ZobristHash;
use crate::MAX_TURN;
use crate::TURN_STRIDE;
use crate::WIDTH;

verus! {

broadcast use vstd::seq_lib::group_to_multiset_ensures, vstd::array::group_array_axioms;

/// One candidate future plus the first real moves that reach it.
#[derive(Clone, Copy, Debug)]
pub struct Branch {
    /// The simulated game state of this candidate future.
    pub state: State,
    /// The moves the player would commit this real turn to follow it.
    pub dirs: [Direction; TURN_STRIDE],
}

/// Branches ordered by heuristic score, best first.
pub open spec fn sorted_desc(s: Seq<Branch>) -> bool {
    forall|i: int, j: int|
        0 <= i <= j < s.len() ==> #[trigger] s[i].state.score >= #[trigger] s[j].state.score
}

/// No two branches share a Zobrist hash.
pub open spec fn distinct_hashes(s: Seq<Branch>) -> bool {
    forall|i: int, j: int|
        0 <= i < j < s.len() ==> #[trigger] s[i].state.hash != #[trigger] s[j].state.hash
}

/// The subsequence of `s` keeping only the first occurrence of every hash
/// not already in `seen`.
pub open spec fn dedupe_spec(s: Seq<Branch>, seen: Set<u64>) -> Seq<Branch>
    decreases s.len(),
{
    if s.len() == 0 {
        Seq::empty()
    } else if seen.contains(s[0].state.hash) {
        dedupe_spec(s.drop_first(), seen)
    } else {
        seq![s[0]] + dedupe_spec(s.drop_first(), seen.insert(s[0].state.hash))
    }
}

/// Pruning keeps only members of the input, none with a hash already seen.
pub proof fn lemma_dedupe_membership(s: Seq<Branch>, seen: Set<u64>)
    ensures
        forall|k: int|
            0 <= k < dedupe_spec(s, seen).len() ==> s.contains(#[trigger] dedupe_spec(s, seen)[k])
                && !seen.contains(dedupe_spec(s, seen)[k].state.hash),
    decreases s.len(),
{
    let d = dedupe_spec(s, seen);
    if s.len() > 0 {
        let rest = s.drop_first();
        assert(forall|i: int| 0 <= i < rest.len() ==> #[trigger] rest[i] == s[i + 1]);
        if seen.contains(s[0].state.hash) {
            lemma_dedupe_membership(rest, seen);
            assert(d == dedupe_spec(rest, seen));
            assert forall|k: int| 0 <= k < d.len() implies s.contains(#[trigger] d[k])
                && !seen.contains(d[k].state.hash) by {
                assert(dedupe_spec(rest, seen)[k] == d[k]);
                assert(rest.contains(d[k]));
                let w = choose|w: int| 0 <= w < rest.len() && rest[w] == d[k];
                assert(s[w + 1] == d[k]);
            }
        } else {
            let seen2 = seen.insert(s[0].state.hash);
            lemma_dedupe_membership(rest, seen2);
            let dr = dedupe_spec(rest, seen2);
            assert(forall|k: int| 1 <= k < d.len() ==> #[trigger] d[k] == dr[k - 1]);
            assert forall|k: int| 0 <= k < d.len() implies s.contains(#[trigger] d[k])
                && !seen.contains(d[k].state.hash) by {
                if k == 0 {
                    assert(d[0] == s[0]);
                } else {
                    assert(dr[k - 1] == d[k]);
                    assert(rest.contains(d[k]));
                    let w = choose|w: int| 0 <= w < rest.len() && rest[w] == d[k];
                    assert(s[w + 1] == d[k]);
                    assert(!seen2.contains(d[k].state.hash));
                }
            }
        }
    }
}

/// Pruning leaves no two branches with the same hash.
pub proof fn lemma_dedupe_distinct(s: Seq<Branch>, seen: Set<u64>)
    ensures
        distinct_hashes(dedupe_spec(s, seen)),
    decreases s.len(),
{
    let d = dedupe_spec(s, seen);
    if s.len() > 0 {
        let rest = s.drop_first();
        if seen.contains(s[0].state.hash) {
            lemma_dedupe_distinct(rest, seen);
            assert(d == dedupe_spec(rest, seen));
        } else {
            let seen2 = seen.insert(s[0].state.hash);
            lemma_dedupe_distinct(rest, seen2);
            lemma_dedupe_membership(rest, seen2);
            let dr = dedupe_spec(rest, seen2);
            assert(forall|k: int| 1 <= k < d.len() ==> #[trigger] d[k] == dr[k - 1]);
            assert forall|i: int, j: int| 0 <= i < j < d.len() implies (
            #[trigger] d[i]).state.hash != (#[trigger] d[j]).state.hash by {
                if i == 0 {
                    assert(d[0] == s[0]);
                    assert(!seen2.contains(dr[j - 1].state.hash));
                }
            }
        }
    }
}

/// Pruning a best-first bucket leaves it best-first.
pub proof fn lemma_dedupe_sorted(s: Seq<Branch>, seen: Set<u64>)
    requires
        sorted_desc(s),
    ensures
        sorted_desc(dedupe_spec(s, seen)),
    decreases s.len(),
{
    let d = dedupe_spec(s, seen);
    if s.len() > 0 {
        let rest = s.drop_first();
        assert(forall|i: int| 0 <= i < rest.len() ==> #[trigger] rest[i] == s[i + 1]);
        assert(sorted_desc(rest));
        if seen.contains(s[0].state.hash) {
            lemma_dedupe_sorted(rest, seen);
            assert(d == dedupe_spec(rest, seen));
        } else {
            let seen2 = seen.insert(s[0].state.hash);
            lemma_dedupe_sorted(rest, seen2);
            lemma_dedupe_membership(rest, seen2);
            let dr = dedupe_spec(rest, seen2);
            assert(d[0] == s[0]);
            assert(forall|k: int| 1 <= k < d.len() ==> #[trigger] d[k] == dr[k - 1]);
            assert forall|i: int, j: int|
                0 <= i <= j < d.len() implies (#[trigger] d[i]).state.score >= (
            #[trigger] d[j]).state.score by {
                if i == 0 && j >= 1 {
                    assert(rest.contains(dr[j - 1]));
                    let w = choose|w: int| 0 <= w < rest.len() && rest[w] == dr[j - 1];
                    assert(s[w + 1] == dr[j - 1]);
                }
            }
        }
    }
}

/// In a best-first bucket, every branch whose hash is fresh is represented
/// after pruning by a branch of the same hash with at least its score.
pub proof fn lemma_dedupe_coverage(s: Seq<Branch>, seen: Set<u64>)
    requires
        sorted_desc(s),
    ensures
        forall|m: int|
            0 <= m < s.len() && !seen.contains((#[trigger] s[m]).state.hash) ==> exists|k: int|
                0 <= k < dedupe_spec(s, seen).len() && (#[trigger] dedupe_spec(s, seen)[k]).state.hash
                    == s[m].state.hash && dedupe_spec(s, seen)[k].state.score >= s[m].state.score,
    decreases s.len(),
{
    let d = dedupe_spec(s, seen);
    if s.len() > 0 {
        let rest = s.drop_first();
        assert(forall|i: int| 0 <= i < rest.len() ==> #[trigger] rest[i] == s[i + 1]);
        assert(sorted_desc(rest));
        if seen.contains(s[0].state.hash) {
            lemma_dedupe_coverage(rest, seen);
            assert(d == dedupe_spec(rest, seen));
            assert forall|m: int|
                0 <= m < s.len() && !seen.contains((#[trigger] s[m]).state.hash) implies exists|
                k: int,
            |
                0 <= k < d.len() && (#[trigger] d[k]).state.hash == s[m].state.hash
                    && d[k].state.score >= s[m].state.score by {
                assert(m >= 1);
                assert(rest[m - 1] == s[m]);
                assert(!seen.contains(rest[m - 1].state.hash));
                let k0 = choose|k0: int|
                    0 <= k0 < dedupe_spec(rest, seen).len() && (#[trigger] dedupe_spec(
                        rest,
                        seen,
                    )[k0]).state.hash == rest[m - 1].state.hash && dedupe_spec(rest, seen)[k0].state.score
                        >= rest[m - 1].state.score;
                assert(d[k0].state.hash == s[m].state.hash && d[k0].state.score
                    >= s[m].state.score);
            }
        } else {
            let seen2 = seen.insert(s[0].state.hash);
            lemma_dedupe_coverage(rest, seen2);
            let dr = dedupe_spec(rest, seen2);
            assert(d[0] == s[0]);
            assert(forall|k: int| 1 <= k < d.len() ==> #[trigger] d[k] == dr[k - 1]);
            assert forall|m: int|
                0 <= m < s.len() && !seen.contains((#[trigger] s[m]).state.hash) implies exists|
                k: int,
            |
                0 <= k < d.len() && (#[trigger] d[k]).state.hash == s[m].state.hash
                    && d[k].state.score >= s[m].state.score by {
                if s[m].state.hash == s[0].state.hash {
                    assert(d[0].state.hash == s[m].state.hash && d[0].state.score
                        >= s[m].state.score);
                } else {
                    assert(m >= 1);
                    assert(rest[m - 1] == s[m]);
                    assert(!seen2.contains(s[m].state.hash));
                    let k0 = choose|k0: int|
                        0 <= k0 < dr.len() && (#[trigger] dr[k0]).state.hash == s[m].state.hash
                            && dr[k0].state.score >= s[m].state.score;
                    assert(d[k0 + 1].state.hash == s[m].state.hash && d[k0 + 1].state.score
                        >= s[m].state.score);
                }
            }
        }
    }
}

/// Whether `seen` holds `h`.
fn seen_contains(seen: &Vec<u64>, h: u64) -> (r: bool)
    ensures
        r == seen@.contains(h),
{
    let mut k: usize = 0;
    while k < seen.len()
        invariant
            k <= seen.len(),
            forall|m: int| 0 <= m < k ==> seen@[m] != h,
        decreases seen.len() - k,
    {
        if seen[k] == h {
            return true;
        }
        k += 1;
    }
    false
}

/// Sorts a bucket by heuristic score, best first, by insertion sort.
pub fn sort_by_score(branches: &mut Vec<Branch>)
    ensures
        sorted_desc(final(branches)@),
        final(branches)@.to_multiset() == old(branches)@.to_multiset(),
        final(branches)@.len() == old(branches)@.len(),
        forall|k: int| 0 <= k < final(branches)@.len() ==> old(branches)@.contains(
            #[trigger] final(branches)@[k],
        ),
{
    let ghost orig = branches@;
    if branches.len() <= 1 {
        return;
    }
    let mut i: usize = 1;
    while i < branches.len()
        invariant
            1 <= i <= branches@.len(),
            branches@.len() == orig.len(),
            branches@.to_multiset() == orig.to_multiset(),
            sorted_desc(branches@.take(i as int)),
        decreases branches@.len() - i,
    {
        let ghost before = branches@;
        let x = branches.remove(i);
        let ghost rem = before.remove(i as int);
        let mut j: usize = 0;
        while j < i && branches[j].state.score >= x.state.score
            invariant
                j <= i,
                i < before.len(),
                branches@ == rem,
                rem == before.remove(i as int),
                forall|m: int| 0 <= m < j ==> (#[trigger] rem[m]).state.score >= x.state.score,
            decreases i - j,
        {
            j += 1;
        }
        let ghost stopped_early = j < i;
        proof {
            if stopped_early {
                assert(rem[j as int].state.score < x.state.score);
            }
        }
        branches.insert(j, x);
        proof {
            let now = branches@;
            assert(now == rem.insert(j as int, x));
            assert(rem.to_multiset() == before.to_multiset().remove(before[i as int]));
            assert(now.to_multiset() == rem.to_multiset().insert(x));
            assert(now.to_multiset() =~= before.to_multiset());
            assert(sorted_desc(before.take(i as int)));
            assert(forall|m: int|
                0 <= m < i ==> #[trigger] rem[m] == before.take(i as int)[m]);
            assert forall|a: int, b: int|
                0 <= a <= b < i + 1 implies (#[trigger] now[a].state.score) >= (
            #[trigger] now[b].state.score) by {
                assert(forall|m: int| 0 <= m < j ==> #[trigger] now[m] == rem[m]);
                assert(forall|m: int| j < m <= i ==> #[trigger] now[m] == rem[m - 1]);
                assert(now[j as int] == x);
            }
            assert(sorted_desc(now.take(i + 1))) by {
                assert(forall|m: int| 0 <= m < i + 1 ==> now.take(i + 1)[m] == now[m]);
            }
        }
        i += 1;
    }
    proof {
        assert(branches@.take(branches@.len() as int) =~= branches@);
        assert forall|k: int| 0 <= k < branches@.len() implies orig.contains(
            #[trigger] branches@[k],
        ) by {
            assert(branches@.to_multiset().contains(branches@[k]));
        }
    }
}

/// Keeps the first occurrence of every hash, in order.
pub fn dedupe_by_hash(branches: &Vec<Branch>) -> (r: Vec<Branch>)
    ensures
        r@ == dedupe_spec(branches@, Set::empty()),
{
    let mut out: Vec<Branch> = Vec::new();
    let mut seen: Vec<u64> = Vec::new();
    let ghost mut seenset: Set<u64> = Set::empty();
    let mut i: usize = 0;
    proof {
        assert(branches@.skip(0) =~= branches@);
    }
    while i < branches.len()
        invariant
            i <= branches@.len(),
            forall|x: u64| seen@.contains(x) <==> seenset.contains(x),
            out@ + dedupe_spec(branches@.skip(i as int), seenset) == dedupe_spec(
                branches@,
                Set::empty(),
            ),
        decreases branches@.len() - i,
    {
        let b = branches[i];
        let h = b.state.hash;
        let ghost pre = branches@.skip(i as int);
        proof {
            assert(pre[0] == branches@[i as int]);
            assert(pre.drop_first() =~= branches@.skip(i as int + 1));
        }
        if !seen_contains(&seen, h) {
            proof {
                assert(!seenset.contains(h));
                assert(dedupe_spec(pre, seenset) == seq![b] + dedupe_spec(
                    pre.drop_first(),
                    seenset.insert(h),
                ));
            }
            let ghost seen_before = seen@;
            out.push(b);
            seen.push(h);
            proof {
                assert forall|x: u64| seen@.contains(x) implies seenset.insert(h).contains(
                    x,
                ) by {
                    let w = choose|w: int| 0 <= w < seen@.len() && seen@[w] == x;
                    if w < seen@.len() - 1 {
                        assert(seen_before[w] == x);
                        assert(seen_before.contains(x));
                    }
                }
                assert forall|x: u64| seenset.insert(h).contains(x) implies seen@.contains(
                    x,
                ) by {
                    if x == h {
                        assert(seen@[seen@.len() - 1] == h);
                    } else {
                        let w = choose|w: int| 0 <= w < seen_before.len() && seen_before[w] == x;
                        assert(seen@[w] == x);
                    }
                }
                seenset = seenset.insert(h);
                assert(out@ + dedupe_spec(branches@.skip(i as int + 1), seenset)
                    =~= dedupe_spec(branches@, Set::empty()));
            }
        } else {
            proof {
                assert(seenset.contains(h));
                assert(dedupe_spec(pre, seenset) == dedupe_spec(pre.drop_first(), seenset));
            }
        }
        i += 1;
    }
    proof {
        assert(branches@.skip(branches@.len() as int) =~= Seq::<Branch>::empty());
        assert(out@ + Seq::<Branch>::empty() =~= out@);
    }
    out
}

/// The whole per-bucket pipeline for one simulated turn: sort best-first,
/// drop every later duplicate of a hash already present (the first, best
/// occurrence wins), truncate to the beam width.  What remains is
/// best-first, duplicate-free, no larger than the width, drawn from the
/// candidates, at least as good as every candidate sharing a hash, and
/// only a full bucket may drop a candidate's hash entirely.
pub fn prune_bucket(branches: &mut Vec<Branch>, width: usize)
    ensures
        sorted_desc(final(branches)@),
        distinct_hashes(final(branches)@),
        final(branches)@.len() <= width,
        forall|k: int|
            0 <= k < final(branches)@.len() ==> old(branches)@.contains(
                #[trigger] final(branches)@[k],
            ),
        forall|k: int, m: int|
            0 <= k < final(branches)@.len() && 0 <= m < old(branches)@.len() && (
            #[trigger] old(branches)@[m]).state.hash == (#[trigger] final(branches)@[k]).state.hash
                ==> old(branches)@[m].state.score <= final(branches)@[k].state.score,
        final(branches)@.len() < width ==> forall|m: int|
            0 <= m < old(branches)@.len() ==> exists|k: int|
                0 <= k < final(branches)@.len() && (#[trigger] final(branches)@[k]).state.hash
                    == (#[trigger] old(branches)@[m]).state.hash,
{
    let ghost cands = branches@;
    sort_by_score(branches);
    let ghost sorted = branches@;
    let deduped = dedupe_by_hash(branches);
    *branches = deduped;
    let ghost dd = branches@;
    proof {
        lemma_dedupe_membership(sorted, Set::empty());
        lemma_dedupe_distinct(sorted, Set::empty());
        lemma_dedupe_sorted(sorted, Set::empty());
        lemma_dedupe_coverage(sorted, Set::empty());
    }
    branches.truncate(width);
    proof {
        let fin = branches@;
        if width <= dd.len() {
            assert(fin == dd.subrange(0, width as int));
        } else {
            assert(fin == dd);
        }
        assert(forall|k: int| 0 <= k < fin.len() ==> #[trigger] fin[k] == dd[k]);
        assert forall|k: int| 0 <= k < fin.len() implies cands.contains(#[trigger] fin[k]) by {
            assert(sorted.contains(dd[k]));
            let w = choose|w: int| 0 <= w < sorted.len() && sorted[w] == dd[k];
            assert(cands.contains(sorted[w]));
        }
        assert forall|k: int, m: int|
            0 <= k < fin.len() && 0 <= m < cands.len() && (#[trigger] cands[m]).state.hash == (
            #[trigger] fin[k]).state.hash implies cands[m].state.score
            <= fin[k].state.score by {
            assert(sorted.to_multiset() == cands.to_multiset());
            assert(cands.to_multiset().contains(cands[m]));
            assert(sorted.contains(cands[m]));
            let w = choose|w: int| 0 <= w < sorted.len() && sorted[w] == cands[m];
            assert(!Set::<u64>::empty().contains(sorted[w].state.hash));
            let k0 = choose|k0: int|
                0 <= k0 < dd.len() && (#[trigger] dd[k0]).state.hash == sorted[w].state.hash
                    && dd[k0].state.score >= sorted[w].state.score;
            assert(dd[k0].state.hash == dd[k].state.hash);
            assert(k0 == k);
        }
        if fin.len() < width {
            assert(fin == dd);
            assert forall|m: int| 0 <= m < cands.len() implies exists|k: int|
                0 <= k < fin.len() && (#[trigger] fin[k]).state.hash == (
            #[trigger] cands[m]).state.hash by {
                assert(sorted.to_multiset() == cands.to_multiset());
                assert(cands.to_multiset().contains(cands[m]));
                assert(sorted.contains(cands[m]));
                let w = choose|w: int| 0 <= w < sorted.len() && sorted[w] == cands[m];
                assert(!Set::<u64>::empty().contains(sorted[w].state.hash));
                let k0 = choose|k0: int|
                    0 <= k0 < dd.len() && (#[trigger] dd[k0]).state.hash == sorted[w].state.hash
                        && dd[k0].state.score >= sorted[w].state.score;
                assert(fin[k0].state.hash == cands[m].state.hash);
            }
        }
    }
}

/// Whether the branch survives the two crash checks of a move in
/// direction `d` after its turn's clean-up pass.
pub open spec fn alive_dir(
    lanes: Seq<Seq<crate::enemy::Enemy>>,
    flags: Seq<u32>,
    parent: Branch,
    d: Direction,
) -> bool {
    let t = parent.state.turn;
    let ci = cleaned_indices(lanes, parent.state.enemies.indices@, flags[t as int], t);
    &&& !spec_crash(lanes, ci, parent.state.column as int, t)
    &&& !spec_crash(lanes, ci, spec_move(parent.state.column as int, d), t)
}

/// Exact relation between a parent branch and one surviving child reached
/// by direction `d` at expansion step `iter`: the parent is cleaned up,
/// survives both crash checks, moves, attacks, and records `d` in its
/// committed-move prefix only during the first `TURN_STRIDE` steps.
pub open spec fn is_child(
    lanes: Seq<Seq<crate::enemy::Enemy>>,
    flags: Seq<u32>,
    parent: Branch,
    child: Branch,
    d: Direction,
    iter: int,
) -> bool {
    let t = parent.state.turn;
    let ci = cleaned_indices(lanes, parent.state.enemies.indices@, flags[t as int], t);
    let cd = cleaned_damages(
        lanes,
        parent.state.enemies.indices@,
        parent.state.enemies.damages@,
        flags[t as int],
        t,
    );
    let col1 = spec_move(parent.state.column as int, d);
    &&& alive_dir(lanes, flags, parent, d)
    &&& child.state.column == col1
    &&& child.state.turn == t + 1
    &&& attack_rel(
        lanes,
        col1,
        ci,
        cd,
        parent.state.power,
        parent.state.raw_score,
        child.state.enemies.indices@,
        child.state.enemies.damages@,
        child.state.power,
        child.state.raw_score,
    )
    &&& child.state.score == spec_score(
        lanes,
        child.state.enemies.indices@,
        child.state.enemies.damages@,
        col1,
        child.state.power,
        child.state.raw_score,
        child.state.turn,
    )
    &&& (iter < TURN_STRIDE ==> child.dirs@ == parent.dirs@.update(iter, d))
    &&& (iter >= TURN_STRIDE ==> child.dirs@ == parent.dirs@)
}

/// Advances one already cleaned-up branch in direction `d`, returning the
/// child when it survives both crash checks and nothing otherwise.
fn try_child(
    cleaned: &Branch,
    enemy_collection: &EnemyCollection,
    hash: &ZobristHash,
    d: Direction,
    iter: usize,
) -> (r: Option<Branch>)
    requires
        enemy_collection.wf(),
        hash.wf(),
        cleaned.state.wf(*enemy_collection),
        cleaned.state.hash_ok(*enemy_collection, *hash),
        cleaned.state.turn < MAX_TURN,
    ensures
        ({
            let lanes = enemy_collection.lanes();
            let col1 = spec_move(cleaned.state.column as int, d);
            let alive = !spec_crash(
                lanes,
                cleaned.state.enemies.indices@,
                cleaned.state.column as int,
                cleaned.state.turn,
            ) && !spec_crash(lanes, cleaned.state.enemies.indices@, col1, cleaned.state.turn);
            &&& (r is Some <==> alive)
            &&& r is Some ==> {
                let ch = r.unwrap();
                &&& ch.state.wf(*enemy_collection)
                &&& ch.state.hash_ok(*enemy_collection, *hash)
                &&& ch.state.column == col1
                &&& ch.state.turn == cleaned.state.turn + 1
                &&& attack_rel(
                    lanes,
                    col1,
                    cleaned.state.enemies.indices@,
                    cleaned.state.enemies.damages@,
                    cleaned.state.power,
                    cleaned.state.raw_score,
                    ch.state.enemies.indices@,
                    ch.state.enemies.damages@,
                    ch.state.power,
                    ch.state.raw_score,
                )
                &&& ch.state.score == spec_score(
                    lanes,
                    ch.state.enemies.indices@,
                    ch.state.enemies.damages@,
                    col1,
                    ch.state.power,
                    ch.state.raw_score,
                    ch.state.turn,
                )
                &&& (iter < TURN_STRIDE ==> ch.dirs@ == cleaned.dirs@.update(iter as int, d))
                &&& (iter >= TURN_STRIDE ==> ch.dirs@ == cleaned.dirs@)
            }
        }),
{
    let mut ch = *cleaned;
    let alive = ch.state.progress_turn(enemy_collection, hash, d);
    if alive {
        if iter < TURN_STRIDE {
            ch.dirs[iter] = d;
        }
        Some(ch)
    } else {
        None
    }
}

/// Expands one branch for one simulated turn: cleans it up once, then
/// spawns up to three children (left, stay, right), keeping the
/// survivors.  Every child is exactly a cleaned, moved, attacked copy of
/// the parent, and every surviving direction yields a child.
pub fn expand_branch(
    parent: &Branch,
    enemy_collection: &EnemyCollection,
    hash: &ZobristHash,
    iter: usize,
) -> (children: Vec<Branch>)
    requires
        enemy_collection.wf(),
        hash.wf(),
        parent.state.wf(*enemy_collection),
        parent.state.hash_ok(*enemy_collection, *hash),
        parent.state.turn < MAX_TURN,
    ensures
        children@.len() <= 3,
        forall|k: int|
            0 <= k < children@.len() ==> (#[trigger] children@[k]).state.wf(*enemy_collection)
                && children@[k].state.hash_ok(*enemy_collection, *hash)
                && children@[k].state.turn == parent.state.turn + 1
                && children@[k].state.column < WIDTH && exists|d: Direction|
                is_child(
                    enemy_collection.lanes(),
                    enemy_collection.flags(),
                    *parent,
                    children@[k],
                    d,
                    iter as int,
                ),
        forall|d: Direction|
            #[trigger] alive_dir(enemy_collection.lanes(), enemy_collection.flags(), *parent, d)
                ==> exists|k: int|
                0 <= k < children@.len() && is_child(
                    enemy_collection.lanes(),
                    enemy_collection.flags(),
                    *parent,
                    children@[k],
                    d,
                    iter as int,
                ),
{
    let ghost lanes = enemy_collection.lanes();
    let ghost flags = enemy_collection.flags();
    let mut cleaned = *parent;
    cleaned.state.clean_up(enemy_collection, hash);
    let mut children: Vec<Branch> = Vec::new();
    let cl = try_child(&cleaned, enemy_collection, hash, Direction::Left, iter);
    let cs = try_child(&cleaned, enemy_collection, hash, Direction::Stay, iter);
    let cr = try_child(&cleaned, enemy_collection, hash, Direction::Right, iter);
    proof {
        if cl is Some {
            assert(is_child(lanes, flags, *parent, cl.unwrap(), Direction::Left, iter as int));
        }
        if cs is Some {
            assert(is_child(lanes, flags, *parent, cs.unwrap(), Direction::Stay, iter as int));
        }
        if cr is Some {
            assert(is_child(lanes, flags, *parent, cr.unwrap(), Direction::Right, iter as int));
        }
    }
    let ghost mut pos_l: int = 0;
    let ghost mut pos_s: int = 0;
    let ghost mut pos_r: int = 0;
    if let Some(ch) = cl {
        proof {
            pos_l = children@.len() as int;
        }
        children.push(ch);
    }
    if let Some(ch) = cs {
        proof {
            pos_s = children@.len() as int;
        }
        children.push(ch);
    }
    if let Some(ch) = cr {
        proof {
            pos_r = children@.len() as int;
        }
        children.push(ch);
    }
    proof {
        assert forall|d: Direction|
            #[trigger] alive_dir(lanes, flags, *parent, d) implies exists|k: int|
            0 <= k < children@.len() && is_child(
                lanes,
                flags,
                *parent,
                children@[k],
                d,
                iter as int,
            ) by {
            match d {
                Direction::Left => {
                    assert(children@[pos_l] == cl.unwrap());
                    assert(is_child(lanes, flags, *parent, children@[pos_l], d, iter as int));
                }
                Direction::Stay => {
                    assert(children@[pos_s] == cs.unwrap());
                    assert(is_child(lanes, flags, *parent, children@[pos_s], d, iter as int));
                }
                Direction::Right => {
                    assert(children@[pos_r] == cr.unwrap());
                    assert(is_child(lanes, flags, *parent, children@[pos_r], d, iter as int));
                }
            }
        }
    }
    children
}

/// One attack step never lowers the banked raw score or the power.
pub proof fn lemma_attack_rel_monotone(
    lanes: Seq<Seq<crate::enemy::Enemy>>,
    c: int,
    idx0: Seq<usize>,
    dmg0: Seq<u64>,
    power0: u64,
    raw0: u64,
    idx1: Seq<usize>,
    dmg1: Seq<u64>,
    power1: u64,
    raw1: u64,
)
    requires
        attack_rel(lanes, c, idx0, dmg0, power0, raw0, idx1, dmg1, power1, raw1),
    ensures
        power1 >= power0,
        raw1 >= raw0,
{
}

/// Raw score and power are non-decreasing across any sequence of turn
/// advances: along every chain of branches in which each one is a child
/// of the one before it, the last branch's banked raw score and power are
/// at least the first one's.
pub proof fn lemma_monotone_along_chain(
    lanes: Seq<Seq<crate::enemy::Enemy>>,
    flags: Seq<u32>,
    chain: Seq<Branch>,
    dirs: Seq<Direction>,
    iters: Seq<int>,
)
    requires
        chain.len() >= 1,
        dirs.len() == chain.len() - 1,
        iters.len() == chain.len() - 1,
        forall|i: int|
            0 <= i < dirs.len() ==> is_child(
                lanes,
                flags,
                #[trigger] chain[i],
                chain[i + 1],
                dirs[i],
                iters[i],
            ),
    ensures
        chain.last().state.raw_score >= chain.first().state.raw_score,
        chain.last().state.power >= chain.first().state.power,
    decreases chain.len(),
{
    if chain.len() > 1 {
        let prefix = chain.drop_last();
        assert(forall|i: int| 0 <= i < prefix.len() ==> #[trigger] prefix[i] == chain[i]);
        lemma_monotone_along_chain(
            lanes,
            flags,
            prefix,
            dirs.drop_last(),
            iters.drop_last(),
        );
        let n = chain.len() - 2;
        assert(is_child(lanes, flags, chain[n], chain[n + 1], dirs[n], iters[n]));
        let pre = chain[n];
        let post = chain[n + 1];
        let t = pre.state.turn;
        let ci = cleaned_indices(lanes, pre.state.enemies.indices@, flags[t as int], t);
        let cd = cleaned_damages(
            lanes,
            pre.state.enemies.indices@,
            pre.state.enemies.damages@,
            flags[t as int],
            t,
        );
        lemma_attack_rel_monotone(
            lanes,
            spec_move(pre.state.column as int, dirs[n]),
            ci,
            cd,
            pre.state.power,
            pre.state.raw_score,
            post.state.enemies.indices@,
            post.state.enemies.damages@,
            post.state.power,
            post.state.raw_score,
        );
    }
}

/// A branch is fit for a simulated turn `t` against the shared ledger and
/// Zobrist table.
pub open spec fn branch_ok(
    b: Branch,
    coll: EnemyCollection,
    table: ZobristHash,
    t: int,
) -> bool {
    &&& b.state.wf(coll)
    &&& b.state.hash_ok(coll, table)
    &&& b.state.turn == t
}

/// Every branch of a lane bucket is fit for turn `t` and sits in lane `c`.
pub open spec fn bucket_ok(
    bs: Seq<Branch>,
    coll: EnemyCollection,
    table: ZobristHash,
    t: int,
    c: int,
) -> bool {
    forall|k: int|
        0 <= k < bs.len() ==> branch_ok(#[trigger] bs[k], coll, table, t) && bs[k].state.column
            == c
}

/// The branch arose, by some direction, from some branch of the previous
/// turn's buckets.
pub open spec fn from_some_parent(
    b: Branch,
    buckets: Seq<Vec<Branch>>,
    lanes: Seq<Seq<crate::enemy::Enemy>>,
    flags: Seq<u32>,
    iter: int,
) -> bool {
    exists|cb: int, m: int, d: Direction|
        #![trigger is_child(lanes, flags, buckets[cb]@[m], b, d, iter)]
        0 <= cb < buckets.len() && 0 <= m < buckets[cb]@.len() && is_child(
            lanes,
            flags,
            buckets[cb]@[m],
            b,
            d,
            iter,
        )
}

/// The child arose from the parent by some direction.
pub open spec fn some_dir_child(
    lanes: Seq<Seq<crate::enemy::Enemy>>,
    flags: Seq<u32>,
    parent: Branch,
    child: Branch,
    iter: int,
) -> bool {
    exists|d: Direction| is_child(lanes, flags, parent, child, d, iter)
}

/// A parent and a direction determine the child: two hash-consistent
/// children of one parent by one direction at one step agree on their
/// lane, hash and score.
pub proof fn lemma_child_determined(
    coll: EnemyCollection,
    table: ZobristHash,
    parent: Branch,
    ch1: Branch,
    ch2: Branch,
    d: Direction,
    iter: int,
)
    requires
        is_child(coll.lanes(), coll.flags(), parent, ch1, d, iter),
        is_child(coll.lanes(), coll.flags(), parent, ch2, d, iter),
        ch1.state.hash_ok(coll, table),
        ch2.state.hash_ok(coll, table),
    ensures
        ch1.state.column == ch2.state.column,
        ch1.state.hash == ch2.state.hash,
        ch1.state.score == ch2.state.score,
{
    assert(ch1.state.enemies.indices@ == ch2.state.enemies.indices@);
    assert(ch1.state.enemies.damages@ == ch2.state.enemies.damages@);
    crate::state::lemma_equal_situation_equal_hash(coll, table, ch1.state, ch2.state);
}

/// One simulated turn over all lane buckets: every live branch is cleaned
/// up and expanded, each surviving child lands in the bucket of its new
/// lane, and every bucket is then sorted, deduplicated and truncated to
/// the beam width.  Every branch that comes out is a child of a branch
/// that went in.
pub fn expand_step(
    buckets: &Vec<Vec<Branch>>,
    enemy_collection: &EnemyCollection,
    hash: &ZobristHash,
    iter: usize,
    width: usize,
    t: usize,
) -> (next: Vec<Vec<Branch>>)
    requires
        enemy_collection.wf(),
        hash.wf(),
        buckets@.len() == WIDTH,
        t < MAX_TURN,
        forall|c: int|
            0 <= c < WIDTH ==> bucket_ok(
                (#[trigger] buckets@[c])@,
                *enemy_collection,
                *hash,
                t as int,
                c,
            ),
    ensures
        next@.len() == WIDTH,
        forall|c: int|
            0 <= c < WIDTH ==> bucket_ok(
                (#[trigger] next@[c])@,
                *enemy_collection,
                *hash,
                t + 1,
                c,
            ),
        forall|c: int|
            0 <= c < WIDTH ==> sorted_desc((#[trigger] next@[c])@) && distinct_hashes(
                next@[c]@,
            ) && next@[c]@.len() <= width,
        forall|c: int, j: int|
            #![trigger next@[c]@[j]]
            0 <= c < WIDTH && 0 <= j < next@[c]@.len() ==> from_some_parent(
                next@[c]@[j],
                buckets@,
                enemy_collection.lanes(),
                enemy_collection.flags(),
                iter as int,
            ),
{
    let ghost lanes = enemy_collection.lanes();
    let ghost flags = enemy_collection.flags();
    let mut next: Vec<Vec<Branch>> = Vec::new();
    while next.len() < WIDTH
        invariant
            next@.len() <= WIDTH,
            forall|c: int| 0 <= c < next@.len() ==> (#[trigger] next@[c])@.len() == 0,
        decreases WIDTH - next@.len(),
    {
        next.push(Vec::new());
    }
    let mut c: usize = 0;
    while c < WIDTH
        invariant
            enemy_collection.wf(),
            hash.wf(),
            buckets@.len() == WIDTH,
            t < MAX_TURN,
            forall|c2: int|
                0 <= c2 < WIDTH ==> bucket_ok(
                    (#[trigger] buckets@[c2])@,
                    *enemy_collection,
                    *hash,
                    t as int,
                    c2,
                ),
            c <= WIDTH,
            next@.len() == WIDTH,
            lanes == enemy_collection.lanes(),
            flags == enemy_collection.flags(),
            forall|c2: int|
                0 <= c2 < WIDTH ==> bucket_ok(
                    (#[trigger] next@[c2])@,
                    *enemy_collection,
                    *hash,
                    t + 1,
                    c2,
                ),
            forall|c2: int, j: int|
                #![trigger next@[c2]@[j]]
                0 <= c2 < WIDTH && 0 <= j < next@[c2]@.len() ==> from_some_parent(
                    next@[c2]@[j],
                    buckets@,
                    lanes,
                    flags,
                    iter as int,
                ),
        decreases WIDTH - c,
    {
        let bucket_len = buckets[c].len();
        let mut k: usize = 0;
        while k < bucket_len
            invariant
                enemy_collection.wf(),
                hash.wf(),
                buckets@.len() == WIDTH,
                t < MAX_TURN,
                forall|c2: int|
                    0 <= c2 < WIDTH ==> bucket_ok(
                        (#[trigger] buckets@[c2])@,
                        *enemy_collection,
                        *hash,
                        t as int,
                        c2,
                    ),
                c < WIDTH,
                bucket_len == buckets@[c as int]@.len(),
                k <= bucket_len,
                next@.len() == WIDTH,
                lanes == enemy_collection.lanes(),
                flags == enemy_collection.flags(),
                forall|c2: int|
                    0 <= c2 < WIDTH ==> bucket_ok(
                        (#[trigger] next@[c2])@,
                        *enemy_collection,
                        *hash,
                        t + 1,
                        c2,
                    ),
                forall|c2: int, j: int|
                    #![trigger next@[c2]@[j]]
                    0 <= c2 < WIDTH && 0 <= j < next@[c2]@.len() ==> from_some_parent(
                        next@[c2]@[j],
                        buckets@,
                        lanes,
                        flags,
                        iter as int,
                    ),
            decreases bucket_len - k,
        {
            let parent = &buckets[c][k];
            let children = expand_branch(parent, enemy_collection, hash, iter);
            proof {
                assert(*parent == buckets@[c as int]@[k as int]);
                assert forall|j: int| 0 <= j < children@.len() implies some_dir_child(
                    lanes,
                    flags,
                    buckets@[c as int]@[k as int],
                    #[trigger] children@[j],
                    iter as int,
                ) by {
                    let d = choose|d: Direction|
                        is_child(
                            enemy_collection.lanes(),
                            enemy_collection.flags(),
                            *parent,
                            children@[j],
                            d,
                            iter as int,
                        );
                    assert(is_child(
                        lanes,
                        flags,
                        buckets@[c as int]@[k as int],
                        children@[j],
                        d,
                        iter as int,
                    ));
                }
            }
            let mut m: usize = 0;
            while m < children.len()
                invariant
                    enemy_collection.wf(),
                    hash.wf(),
                    m <= children@.len(),
                    forall|j: int|
                        0 <= j < children@.len() ==> (#[trigger] children@[j]).state.wf(
                            *enemy_collection,
                        ) && children@[j].state.hash_ok(*enemy_collection, *hash)
                            && children@[j].state.turn == t + 1 && children@[j].state.column
                            < WIDTH,
                    next@.len() == WIDTH,
                    c < WIDTH,
                    k < buckets@[c as int]@.len(),
                    buckets@.len() == WIDTH,
                    lanes == enemy_collection.lanes(),
                    flags == enemy_collection.flags(),
                    forall|j: int|
                        0 <= j < children@.len() ==> some_dir_child(
                            lanes,
                            flags,
                            buckets@[c as int]@[k as int],
                            #[trigger] children@[j],
                            iter as int,
                        ),
                    forall|c2: int|
                        0 <= c2 < WIDTH ==> bucket_ok(
                            (#[trigger] next@[c2])@,
                            *enemy_collection,
                            *hash,
                            t + 1,
                            c2,
                        ),
                    forall|c2: int, j: int|
                        #![trigger next@[c2]@[j]]
                        0 <= c2 < WIDTH && 0 <= j < next@[c2]@.len() ==> from_some_parent(
                            next@[c2]@[j],
                            buckets@,
                            lanes,
                            flags,
                            iter as int,
                        ),
                decreases children@.len() - m,
            {
                let ch = children[m];
                let col = ch.state.column;
                proof {
                    assert(some_dir_child(
                        lanes,
                        flags,
                        buckets@[c as int]@[k as int],
                        children@[m as int],
                        iter as int,
                    ));
                    let d = choose|d: Direction|
                        is_child(
                            lanes,
                            flags,
                            buckets@[c as int]@[k as int],
                            children@[m as int],
                            d,
                            iter as int,
                        );
                    assert(is_child(lanes, flags, buckets@[c as int]@[k as int], ch, d, iter as int));
                    assert(from_some_parent(ch, buckets@, lanes, flags, iter as int));
                }
                let mut slot: Vec<Branch> = Vec::new();
                next.set_and_swap(col, &mut slot);
                slot.push(ch);
                next.set_and_swap(col, &mut slot);
                m += 1;
            }
            k += 1;
        }
        c += 1;
    }
    let mut c2: usize = 0;
    while c2 < WIDTH
        invariant
            enemy_collection.wf(),
            hash.wf(),
            c2 <= WIDTH,
            next@.len() == WIDTH,
            lanes == enemy_collection.lanes(),
            flags == enemy_collection.flags(),
            forall|c3: int|
                0 <= c3 < WIDTH ==> bucket_ok(
                    (#[trigger] next@[c3])@,
                    *enemy_collection,
                    *hash,
                    t + 1,
                    c3,
                ),
            forall|c3: int|
                0 <= c3 < c2 ==> sorted_desc((#[trigger] next@[c3])@) && distinct_hashes(
                    next@[c3]@,
                ) && next@[c3]@.len() <= width,
            forall|c3: int, j: int|
                #![trigger next@[c3]@[j]]
                0 <= c3 < WIDTH && 0 <= j < next@[c3]@.len() ==> from_some_parent(
                    next@[c3]@[j],
                    buckets@,
                    lanes,
                    flags,
                    iter as int,
                ),
        decreases WIDTH - c2,
    {
        let mut slot: Vec<Branch> = Vec::new();
        next.set_and_swap(c2, &mut slot);
        let ghost pre = slot@;
        prune_bucket(&mut slot, width);
        proof {
            assert forall|j: int| 0 <= j < slot@.len() implies branch_ok(
                #[trigger] slot@[j],
                *enemy_collection,
                *hash,
                t + 1,
            ) && slot@[j].state.column == c2 as int && from_some_parent(
                slot@[j],
                buckets@,
                lanes,
                flags,
                iter as int,
            ) by {
                assert(pre.contains(slot@[j]));
                let w = choose|w: int| 0 <= w < pre.len() && pre[w] == slot@[j];
            }
        }
        next.set_and_swap(c2, &mut slot);
        c2 += 1;
    }
    next
}

/// Scans every bucket and returns a branch with the greatest score, or
/// nothing when every bucket is empty; ties fall to the first one found.
pub fn select_best(buckets: &Vec<Vec<Branch>>) -> (r: Option<Branch>)
    ensures
        r is None ==> forall|c: int|
            0 <= c < buckets@.len() ==> (#[trigger] buckets@[c])@.len() == 0,
        r is Some ==> exists|c: int, k: int|
            #![trigger buckets@[c]@[k]]
            0 <= c < buckets@.len() && 0 <= k < buckets@[c]@.len() && buckets@[c]@[k]
                == r.unwrap(),
        r is Some ==> forall|c: int, k: int|
            #![trigger buckets@[c]@[k]]
            0 <= c < buckets@.len() && 0 <= k < buckets@[c]@.len()
                ==> buckets@[c]@[k].state.score <= r.unwrap().state.score,
{
    let mut best: Option<Branch> = None;
    let mut c: usize = 0;
    while c < buckets.len()
        invariant
            c <= buckets@.len(),
            best is None ==> forall|c2: int|
                0 <= c2 < c ==> (#[trigger] buckets@[c2])@.len() == 0,
            best is Some ==> exists|c2: int, k: int|
                #![trigger buckets@[c2]@[k]]
                0 <= c2 < buckets@.len() && 0 <= k < buckets@[c2]@.len() && buckets@[c2]@[k]
                    == best.unwrap(),
            best is Some ==> forall|c2: int, k: int|
                #![trigger buckets@[c2]@[k]]
                0 <= c2 < c && 0 <= k < buckets@[c2]@.len()
                    ==> buckets@[c2]@[k].state.score <= best.unwrap().state.score,
        decreases buckets@.len() - c,
    {
        let mut k: usize = 0;
        while k < buckets[c].len()
            invariant
                c < buckets@.len(),
                k <= buckets@[c as int]@.len(),
                best is None ==> forall|c2: int|
                    0 <= c2 < c ==> (#[trigger] buckets@[c2])@.len() == 0,
                best is None ==> k == 0,
                best is Some ==> exists|c2: int, k2: int|
                    #![trigger buckets@[c2]@[k2]]
                    0 <= c2 < buckets@.len() && 0 <= k2 < buckets@[c2]@.len()
                        && buckets@[c2]@[k2] == best.unwrap(),
                best is Some ==> forall|c2: int, k2: int|
                    #![trigger buckets@[c2]@[k2]]
                    0 <= c2 < c && 0 <= k2 < buckets@[c2]@.len()
                        ==> buckets@[c2]@[k2].state.score <= best.unwrap().state.score,
                best is Some ==> forall|k2: int|
                    0 <= k2 < k ==> (#[trigger] buckets@[c as int]@[k2]).state.score
                        <= best.unwrap().state.score,
            decreases buckets@[c as int]@.len() - k,
        {
            let b = buckets[c][k];
            let replace = match &best {
                Option::None => true,
                Option::Some(bb) => bb.state.score < b.state.score,
            };
            if replace {
                best = Some(b);
            }
            k += 1;
        }
        c += 1;
    }
    best
}

/// The branch descends from `seed` by exactly `n` expansion steps, the
/// `i`-th recording its direction at prefix slot `i`.
pub open spec fn reachable(
    lanes: Seq<Seq<crate::enemy::Enemy>>,
    flags: Seq<u32>,
    seed: Branch,
    b: Branch,
    n: int,
) -> bool
    decreases n,
{
    if n <= 0 {
        b == seed
    } else {
        exists|p: Branch, d: Direction|
            #![trigger is_child(lanes, flags, p, b, d, n - 1)]
            reachable(lanes, flags, seed, p, n - 1) && is_child(lanes, flags, p, b, d, n - 1)
    }
}

/// A final frontier of the search: one bucket per lane, each sorted
/// best-first, duplicate-free and within the width, holding only
/// branches of its own lane that descend from `seed` by exactly `n`
/// expansion steps.
pub open spec fn final_frontier(
    frontier: Seq<Seq<Branch>>,
    lanes: Seq<Seq<crate::enemy::Enemy>>,
    flags: Seq<u32>,
    seed: Branch,
    n: int,
    width: int,
) -> bool {
    &&& frontier.len() == WIDTH
    &&& forall|c: int|
        0 <= c < WIDTH ==> sorted_desc(#[trigger] frontier[c]) && distinct_hashes(frontier[c])
            && frontier[c].len() <= width
    &&& forall|c: int, j: int|
        #![trigger frontier[c][j]]
        0 <= c < WIDTH && 0 <= j < frontier[c].len() ==> frontier[c][j].state.column == c
            && reachable(lanes, flags, seed, frontier[c][j], n)
}

/// What the search returns for a real state: either some final frontier
/// descended from the all-stay seeding of that state is entirely empty
/// and the result is the all-stay prefix, or the result is the
/// committed-move prefix of a branch of maximal score in such a
/// frontier.
pub open spec fn search_result(
    r: Seq<Direction>,
    state: State,
    lanes: Seq<Seq<crate::enemy::Enemy>>,
    flags: Seq<u32>,
    n: int,
    width: int,
) -> bool {
    exists|seed: Branch, frontier: Seq<Seq<Branch>>|
        #![trigger final_frontier(frontier, lanes, flags, seed, n, width)]
        {
            &&& seed.state == state
            &&& seed.dirs@ == Seq::new(TURN_STRIDE as nat, |i: int| Direction::Stay)
            &&& final_frontier(frontier, lanes, flags, seed, n, width)
            &&& ({
                ||| ((forall|c: int| 0 <= c < WIDTH ==> (#[trigger] frontier[c]).len() == 0)
                    && r == Seq::new(TURN_STRIDE as nat, |i: int| Direction::Stay))
                ||| (exists|c: int, k: int|
                    #![trigger frontier[c][k]]
                    0 <= c < WIDTH && 0 <= k < frontier[c].len() && r == frontier[c][k].dirs@
                        && (forall|c2: int, k2: int|
                        #![trigger frontier[c2][k2]]
                        0 <= c2 < WIDTH && 0 <= k2 < frontier[c2].len()
                            ==> frontier[c2][k2].state.score <= frontier[c][k].state.score))
            })
        }
}

/// Runs the beam search from the real state: seeds one branch in the
/// player's lane, expands `simulation_len` simulated turns with
/// per-bucket pruning, and returns the committed-move prefix of a
/// best-scoring branch of the final frontier, staying put when no branch
/// survives.
pub fn search(
    state: &State,
    enemy_collection: &EnemyCollection,
    hash: &ZobristHash,
    beam_width: usize,
    simulation_len: usize,
) -> (r: [Direction; TURN_STRIDE])
    requires
        enemy_collection.wf(),
        hash.wf(),
        state.wf(*enemy_collection),
        state.hash_ok(*enemy_collection, *hash),
        state.turn + simulation_len <= MAX_TURN,
        1 <= beam_width,
    ensures
        search_result(
            r@,
            *state,
            enemy_collection.lanes(),
            enemy_collection.flags(),
            simulation_len as int,
            beam_width as int,
        ),
{
    let ghost lanes = enemy_collection.lanes();
    let ghost flags = enemy_collection.flags();
    let mut buckets: Vec<Vec<Branch>> = Vec::new();
    while buckets.len() < WIDTH
        invariant
            buckets@.len() <= WIDTH,
            forall|c: int| 0 <= c < buckets@.len() ==> (#[trigger] buckets@[c])@.len() == 0,
        decreases WIDTH - buckets@.len(),
    {
        buckets.push(Vec::new());
    }
    let seed = Branch { state: *state, dirs: [Direction::Stay; TURN_STRIDE] };
    let col = seed.state.column;
    let mut slot: Vec<Branch> = Vec::new();
    buckets.set_and_swap(col, &mut slot);
    slot.push(seed);
    buckets.set_and_swap(col, &mut slot);
    let mut t = state.turn;
    let mut iter: usize = 0;
    while iter < simulation_len
        invariant
            enemy_collection.wf(),
            hash.wf(),
            iter <= simulation_len,
            t == state.turn + iter,
            t <= MAX_TURN,
            state.turn + simulation_len <= MAX_TURN,
            1 <= beam_width,
            lanes == enemy_collection.lanes(),
            flags == enemy_collection.flags(),
            buckets@.len() == WIDTH,
            forall|c: int|
                0 <= c < WIDTH ==> bucket_ok(
                    (#[trigger] buckets@[c])@,
                    *enemy_collection,
                    *hash,
                    t as int,
                    c,
                ),
            forall|c: int|
                0 <= c < WIDTH ==> sorted_desc((#[trigger] buckets@[c])@) && distinct_hashes(
                    buckets@[c]@,
                ) && buckets@[c]@.len() <= beam_width,
            forall|c: int, j: int|
                #![trigger buckets@[c]@[j]]
                0 <= c < WIDTH && 0 <= j < buckets@[c]@.len() ==> reachable(
                    lanes,
                    flags,
                    seed,
                    buckets@[c]@[j],
                    iter as int,
                ),
        decreases simulation_len - iter,
    {
        let ghost prev = buckets@;
        buckets = expand_step(&buckets, enemy_collection, hash, iter, beam_width, t);
        proof {
            assert forall|c2: int, j: int|
                #![trigger buckets@[c2]@[j]]
                0 <= c2 < WIDTH && 0 <= j < buckets@[c2]@.len() implies reachable(
                lanes,
                flags,
                seed,
                buckets@[c2]@[j],
                iter + 1,
            ) by {
                assert(from_some_parent(buckets@[c2]@[j], prev, lanes, flags, iter as int));
                let (cb, m, d) = choose|cb: int, m: int, d: Direction|
                    #![trigger is_child(lanes, flags, prev[cb]@[m], buckets@[c2]@[j], d, iter as int)]
                    0 <= cb < prev.len() && 0 <= m < prev[cb]@.len() && is_child(
                        lanes,
                        flags,
                        prev[cb]@[m],
                        buckets@[c2]@[j],
                        d,
                        iter as int,
                    );
                assert(reachable(lanes, flags, seed, prev[cb]@[m], (iter + 1) - 1));
                assert(is_child(
                    lanes,
                    flags,
                    prev[cb]@[m],
                    buckets@[c2]@[j],
                    d,
                    (iter + 1) - 1,
                ));
            }
        }
        t += 1;
        iter += 1;
    }
    let ghost frontier = buckets@.map_values(|v: Vec<Branch>| v@);
    proof {
        assert(forall|c: int| 0 <= c < WIDTH ==> #[trigger] frontier[c] == buckets@[c]@);
        assert(final_frontier(frontier, lanes, flags, seed, simulation_len as int,
            beam_width as int));
        assert(seed.dirs@ == Seq::new(TURN_STRIDE as nat, |i: int| Direction::Stay)) by {
            assert(seed.dirs@ =~= Seq::new(TURN_STRIDE as nat, |i: int| Direction::Stay));
        }
    }
    match select_best(&buckets) {
        Some(b) => {
            proof {
                let (c, k) = choose|c: int, k: int|
                    #![trigger buckets@[c]@[k]]
                    0 <= c < buckets@.len() && 0 <= k < buckets@[c]@.len() && buckets@[c]@[k]
                        == b;
                assert(frontier[c][k] == b);
                assert forall|c2: int, k2: int|
                    #![trigger frontier[c2][k2]]
                    0 <= c2 < WIDTH && 0 <= k2 < frontier[c2].len() implies frontier[c2][k2].state.score
                    <= frontier[c][k].state.score by {
                    assert(buckets@[c2]@[k2].state.score <= b.state.score);
                }
                assert(search_result(
                    b.dirs@,
                    *state,
                    lanes,
                    flags,
                    simulation_len as int,
                    beam_width as int,
                ));
            }
            b.dirs
        },
        None => {
            let r = [Direction::Stay; TURN_STRIDE];
            proof {
                assert(forall|c: int|
                    0 <= c < WIDTH ==> (#[trigger] frontier[c]).len() == 0);
                assert(r@ =~= Seq::new(TURN_STRIDE as nat, |i: int| Direction::Stay));
                assert(search_result(
                    r@,
                    *state,
                    lanes,
                    flags,
                    simulation_len as int,
                    beam_width as int,
                ));
            }
            r
        },
    }
}

} // verus!
