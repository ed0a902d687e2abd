use beam_survival::beam::dedupe_by_hash;
use beam_survival::beam::prune_bucket;
use beam_survival::beam::select_best;
use beam_survival::beam::sort_by_score;
use beam_survival::beam::Branch;
use beam_survival::hasher::NopHasher;
use beam_survival::minmax::ChangeMinMax;
use beam_survival::state::Direction;
use beam_survival::state::State;

fn branch(score: u128, hash: u64) -> Branch {
    let mut state = State::new();
    state.score = score;
    state.hash = hash;
    Branch { state, dirs: [Direction::Stay, Direction::Stay] }
}

#[test]
fn move_and_opposite_move_return_to_start() {
    // Every lane, every direction: a move followed by the opposite move
    // lands back on the original lane, wrap-around included.
    for lane in 0..25usize {
        let mut s = State::new();
        s.column = lane;
        s.move_player(Direction::Left);
        s.move_player(Direction::Right);
        assert_eq!(s.column, lane);
        s.move_player(Direction::Right);
        s.move_player(Direction::Left);
        assert_eq!(s.column, lane);
        s.move_player(Direction::Stay);
        s.move_player(Direction::Stay);
        assert_eq!(s.column, lane);
    }
    let mut s = State::new();
    s.column = 0;
    s.move_player(Direction::Left);
    assert_eq!(s.column, 24);
    s.move_player(Direction::Right);
    assert_eq!(s.column, 0);
}

#[test]
fn sort_orders_best_first() {
    let mut v = vec![branch(5, 1), branch(9, 2), branch(1, 3), branch(9, 4), branch(7, 5)];
    sort_by_score(&mut v);
    let scores: Vec<u128> = v.iter().map(|b| b.state.score).collect();
    assert_eq!(scores, vec![9, 9, 7, 5, 1]);
    assert_eq!(v.len(), 5);
}

#[test]
fn dedupe_keeps_first_of_each_hash() {
    let v = vec![branch(9, 10), branch(8, 11), branch(7, 10), branch(6, 12), branch(5, 11)];
    let d = dedupe_by_hash(&v);
    let hashes: Vec<u64> = d.iter().map(|b| b.state.hash).collect();
    let scores: Vec<u128> = d.iter().map(|b| b.state.score).collect();
    assert_eq!(hashes, vec![10, 11, 12]);
    assert_eq!(scores, vec![9, 8, 6]);
}

#[test]
fn duplicate_states_collapse_to_one() {
    // Two branches reaching the identical combat situation by different
    // move histories carry the same hash; the bucket keeps exactly one,
    // the higher-scoring one.
    let via_left = branch(40, 777);
    let mut via_right = via_left;
    via_right.dirs = [Direction::Right, Direction::Left];
    via_right.state.score = 30;
    let other = branch(10, 888);
    let mut bucket = vec![via_left, via_right, other];
    prune_bucket(&mut bucket, 5);
    assert_eq!(bucket.len(), 2);
    assert_eq!(bucket[0].state.hash, 777);
    assert_eq!(bucket[0].state.score, 40);
    assert_eq!(bucket[1].state.hash, 888);
}

#[test]
fn bucket_of_twelve_with_three_collisions_keeps_five() {
    // Twelve candidates, three of which collide with earlier
    // higher-scoring entries, pruned at width five: exactly five remain
    // and none of them is a collided duplicate.
    let mut bucket = vec![
        branch(120, 1),
        branch(110, 2),
        branch(100, 3),
        branch(90, 1),  // duplicate of the 120-score entry
        branch(80, 4),
        branch(70, 5),
        branch(60, 2),  // duplicate of the 110-score entry
        branch(50, 6),
        branch(40, 7),
        branch(30, 3),  // duplicate of the 100-score entry
        branch(20, 8),
        branch(10, 9),
    ];
    prune_bucket(&mut bucket, 5);
    assert_eq!(bucket.len(), 5);
    let scores: Vec<u128> = bucket.iter().map(|b| b.state.score).collect();
    assert_eq!(scores, vec![120, 110, 100, 80, 70]);
    for b in bucket.iter() {
        assert!(b.state.score != 90 && b.state.score != 60 && b.state.score != 30);
    }
}

#[test]
fn select_best_finds_maximum_across_buckets() {
    let buckets = vec![
        vec![branch(5, 1)],
        vec![],
        vec![branch(50, 2), branch(3, 3)],
        vec![branch(49, 4)],
    ];
    let best = select_best(&buckets).unwrap();
    assert_eq!(best.state.score, 50);
    let empty: Vec<Vec<Branch>> = vec![vec![], vec![]];
    assert!(select_best(&empty).is_none());
}

#[test]
fn change_min_max_report_movement() {
    let mut x: u64 = 10;
    assert!(x.change_min(7));
    assert_eq!(x, 7);
    assert!(!x.change_min(7));
    assert!(!x.change_min(9));
    assert_eq!(x, 7);
    assert!(x.change_max(9));
    assert_eq!(x, 9);
    assert!(!x.change_max(2));
    let mut y: u128 = 0;
    assert!(y.change_max(1));
    assert!(!y.change_min(1));
    assert_eq!(y, 1);
}

#[test]
fn nop_hasher_passes_value_through() {
    let mut h = NopHasher::default();
    assert_eq!(h.finish(), 0);
    h.write_u64(0xDEAD_BEEF);
    assert_eq!(h.finish(), 0xDEAD_BEEF);
    h.write_u64(42);
    assert_eq!(h.finish(), 42);
}
