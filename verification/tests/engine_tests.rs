use beam_survival::enemy::EnemyCollection;
use beam_survival::engine::Engine;
use beam_survival::state::Direction;
use beam_survival::state::State;
use beam_survival::zobrist::ZobristHash;
use beam_survival::CENTER;
use beam_survival::MAX_TURN;

#[test]
fn scenario_first_attack_leaves_enemy_alive() {
    // One enemy with 10 hit points in the starting lane; after one turn of
    // staying put the player has hit it once at level 1 and banked nothing.
    let mut engine = Engine::new();
    assert_eq!(engine.column(), CENTER);
    assert_eq!(engine.power(), 100);
    assert!(engine.ingest(&vec![(10u32, 5u32, 12usize)]));
    let alive = engine.advance(Direction::Stay);
    assert_eq!(alive, Some(true));
    assert_eq!(engine.column(), 12);
    assert_eq!(engine.raw_score(), 0);
    assert_eq!(engine.power(), 100);
    assert_eq!(engine.state.enemies.damages[12], 1);
    assert_eq!(engine.state.enemies.indices[12], 0);
}

#[test]
fn scenario_first_attack_exact_score() {
    // The same single-enemy turn, checked against the exact scoring
    // formula: partial credit 2*1*1*1024/(2*10) = 102 on the raw side and
    // 2*5*1*1024/(2*100) = 51 on the power side, weighted by the turn
    // coefficients 1 and (1000-1)*1000.
    let mut engine = Engine::new();
    assert!(engine.ingest(&vec![(10u32, 5u32, 12usize)]));
    engine.advance(Direction::Stay);
    assert_eq!(engine.state.score, 102u128 + 102451u128 * 999000u128);
}

#[test]
fn scenario_ten_attacks_destroy_enemy() {
    // Ten level-1 attacks deal 10 damage, reaching the enemy's 10 hit
    // points: it dies, its hit points and reward are credited, the lane
    // cursor advances and the damage resets.
    let zobrist = ZobristHash::new();
    let mut coll = EnemyCollection::new();
    let mut state = State::new();
    coll.spawn(&vec![(10u32, 5u32, 12usize)], &zobrist, &mut state.hash, 0);
    for _ in 0..10 {
        state.attack(&coll, &zobrist);
    }
    assert_eq!(state.raw_score, 10);
    assert_eq!(state.power, 105);
    assert_eq!(state.enemies.indices[12], 1);
    assert_eq!(state.enemies.damages[12], 0);
}

#[test]
fn scenario_untouched_enemy_crashes_then_expires() {
    // An enemy spawned at turn 0 reaches the bottom at turn 59: a player
    // sharing its lane crashes.  At turn 60 the expiry flag fires and the
    // clean-up pass retires it silently, with zero credit.
    let zobrist = ZobristHash::new();
    let mut coll = EnemyCollection::new();
    let mut state = State::new();
    coll.spawn(&vec![(10u32, 5u32, 12usize)], &zobrist, &mut state.hash, 0);
    assert!(state.enemies.crash(&coll, 12, 59));
    assert!(!state.enemies.crash(&coll, 12, 58));
    assert!(!state.enemies.crash(&coll, 12, 60));
    state.turn = 60;
    state.clean_up(&coll, &zobrist);
    assert_eq!(state.enemies.indices[12], 1);
    assert_eq!(state.enemies.damages[12], 0);
    assert_eq!(state.raw_score, 0);
    assert_eq!(state.power, 100);
    assert_eq!(state.hash, 0);
}

#[test]
fn clean_up_twice_equals_once() {
    // Idempotence: a second clean-up pass with no turn advance between
    // changes nothing.
    let zobrist = ZobristHash::new();
    let mut coll = EnemyCollection::new();
    let mut state = State::new();
    coll.spawn(&vec![(10u32, 5u32, 3usize), (20u32, 7u32, 8usize)], &zobrist, &mut state.hash, 0);
    state.turn = 60;
    state.clean_up(&coll, &zobrist);
    let once_indices = state.enemies.indices;
    let once_damages = state.enemies.damages;
    let once_hash = state.hash;
    state.clean_up(&coll, &zobrist);
    assert_eq!(state.enemies.indices, once_indices);
    assert_eq!(state.enemies.damages, once_damages);
    assert_eq!(state.hash, once_hash);
}

#[test]
fn raw_score_and_power_never_decrease() {
    // Monotonicity across a sequence of advances, whatever happens.
    let mut engine = Engine::new();
    assert!(engine.ingest(&vec![(3u32, 9u32, 12usize), (50u32, 1u32, 13usize)]));
    let moves = [
        Direction::Stay,
        Direction::Stay,
        Direction::Stay,
        Direction::Right,
        Direction::Left,
        Direction::Right,
        Direction::Right,
        Direction::Stay,
    ];
    let mut last_raw = engine.raw_score();
    let mut last_power = engine.power();
    for d in moves.iter() {
        engine.advance(*d);
        assert!(engine.raw_score() >= last_raw);
        assert!(engine.power() >= last_power);
        last_raw = engine.raw_score();
        last_power = engine.power();
    }
    // The 3-hit-point enemy died under three level-1 attacks.
    assert_eq!(engine.raw_score(), 3);
    assert_eq!(engine.power(), 109);
}

#[test]
fn incremental_hash_matches_recomputation() {
    // Hash correctness: after spawning, attacking and cleaning, the
    // incrementally maintained hash equals the hash recomputed from
    // scratch by walking all unresolved enemies.
    let mut engine = Engine::new();
    assert!(engine.ingest(&vec![(10u32, 5u32, 12usize), (7u32, 2u32, 11usize)]));
    let r0 = engine.state.recompute_hash(&engine.enemy_collection, &engine.zobrist);
    assert_eq!(r0, engine.state.hash);
    assert_ne!(engine.state.hash, 0);
    engine.advance(Direction::Stay);
    let r1 = engine.state.recompute_hash(&engine.enemy_collection, &engine.zobrist);
    assert_eq!(r1, engine.state.hash);
    engine.advance(Direction::Left);
    engine.advance(Direction::Stay);
    let r2 = engine.state.recompute_hash(&engine.enemy_collection, &engine.zobrist);
    assert_eq!(r2, engine.state.hash);
}

#[test]
fn batch_rejected_when_malformed() {
    let mut engine = Engine::new();
    // Lane out of range.
    assert!(!engine.ingest(&vec![(10u32, 5u32, 25usize)]));
    // Hit points beyond the Zobrist bound.
    assert!(!engine.ingest(&vec![(500u32, 5u32, 3usize)]));
    // The same lane twice in one batch.
    assert!(!engine.ingest(&vec![(10u32, 5u32, 3usize), (9u32, 1u32, 3usize)]));
    // A well-formed batch still goes through afterwards.
    assert!(engine.ingest(&vec![(10u32, 5u32, 3usize), (9u32, 1u32, 4usize)]));
    assert_eq!(engine.turn(), 0);
}

#[test]
fn zero_spawns_in_a_turn_is_fine() {
    // The engine must operate correctly with an empty spawn batch.
    let mut engine = Engine::new();
    assert!(engine.ingest(&vec![]));
    assert_eq!(engine.state.hash, 0);
    let dirs = engine.decide(3);
    assert_eq!(engine.advance(dirs[0]), Some(true));
    assert_eq!(engine.turn(), 1);
    assert_eq!(engine.raw_score(), 0);
}

#[test]
fn advance_refused_after_run_ends() {
    let mut engine = Engine::new();
    engine.state.turn = MAX_TURN;
    assert_eq!(engine.advance(Direction::Stay), None);
}

#[test]
fn search_from_clean_start_survives() {
    // With a single enemy far from the player, the search returns some
    // move prefix and the engine can follow it.
    let mut engine = Engine::new();
    assert!(engine.ingest(&vec![(10u32, 5u32, 0usize)]));
    let dirs = engine.decide(5);
    let alive = engine.advance(dirs[0]);
    assert_eq!(alive, Some(true));
}

#[test]
fn search_avoids_certain_crash() {
    // The player's lane holds an enemy about to reach the bottom; every
    // surviving branch must begin by stepping aside, and the search
    // commits such a move.
    let zobrist = ZobristHash::new();
    let mut coll = EnemyCollection::new();
    let mut state = State::new();
    coll.spawn(&vec![(400u32, 1u32, 12usize)], &zobrist, &mut state.hash, 0);
    state.turn = 58;
    let dirs = beam_survival::beam::search(&state, &coll, &zobrist, 5, 10);
    // At turn 58 the enemy is one row above the bottom; staying at lane 12
    // next turn crashes at the pre-move check of turn 59.
    assert_ne!(dirs[0], Direction::Stay);
}
