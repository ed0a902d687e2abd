use beam_survival::rng::split_mix_64;
use beam_survival::rng::Xoshiro256;
use beam_survival::zobrist::ZobristHash;
use beam_survival::width::isqrt;
use beam_survival::width::BayesianBeamWidthSuggester;
use beam_survival::width::BeamWidthSuggester;

#[test]
fn suggested_width_stays_within_bounds() {
    // For all inputs tried, the suggestion lies in [min, max].
    let mut s = BayesianBeamWidthSuggester::new(500, 5, 1_980_000_000, 15, 1, 150);
    let observations = [
        (0u64, 0u64),
        (1_000_000, 5_000_000),
        (500_000_000, 600_000_000),
        (0, 1_900_000_000),
        (3_000_000, 1_979_999_999),
        (10, 2_000_000_000),
        (123_456, 2_100_000_000),
    ];
    for (observed, elapsed) in observations.iter() {
        let w = s.suggest(*observed, *elapsed);
        assert!(w >= 1 && w <= 150);
    }
    // Past the budget the controller falls to the minimum width.
    let mut tight = BayesianBeamWidthSuggester::new(500, 5, 1_980_000_000, 15, 2, 150);
    let w = tight.suggest(0, 1_980_000_000);
    assert_eq!(w, 2);
}

#[test]
fn small_budget_at_the_integer_floor() {
    // The budget floor is 20 microseconds per width-unit per turn; right
    // at it the noise parameters stay nonzero where they must (the
    // observation noise) and suggestions stay in bounds.
    let mut s = BayesianBeamWidthSuggester::new(500, 1, 150_000_000, 15, 1, 150);
    assert_eq!(s.mean_ns, 20_000);
    assert_eq!(s.variance, 4);
    assert_eq!(s.variance_state, 0);
    assert_eq!(s.variance_observe, 1);
    for i in 0..5u64 {
        let w = s.suggest(i * 1_000, i * 5_000);
        assert!(w >= 1 && w <= 150);
    }
}

#[test]
fn first_suggestion_matches_hand_computation() {
    // Prior mean 1.98e9 / (500*15) = 264000 ns; prior variance (26 us)^2 =
    // 676, observation noise (13 us)^2 = 169; 500 remaining turns give a
    // variance sum of 422500 whose square root is 650, so the projected
    // per-width cost is 500*264000 + 3*650*1000 = 133950000 ns and the
    // budget of 1.98e9 ns buys width 14.
    let mut s = BayesianBeamWidthSuggester::new(500, 5, 1_980_000_000, 15, 1, 150);
    assert_eq!(s.mean_ns, 264_000);
    assert_eq!(s.variance, 676);
    assert_eq!(s.variance_observe, 169);
    assert_eq!(s.variance_state, 4);
    assert_eq!(s.suggest(0, 0), 14);
}

#[test]
fn kalman_update_matches_hand_computation() {
    // With a warm-up of one turn, the second call folds in an observation
    // equal to the prior mean: the mean is unchanged and the variance
    // contracts to (676+4)*169/849 = 135.
    let mut s = BayesianBeamWidthSuggester::new(500, 1, 1_980_000_000, 15, 1, 150);
    let w1 = s.suggest(0, 0);
    assert_eq!(w1, 14);
    let w2 = s.suggest(14 * 264_000, 3_696_000);
    assert_eq!(s.mean_ns, 264_000);
    assert_eq!(s.variance, 135);
    assert_eq!(w2, 14);
}

#[test]
fn isqrt_exact_values() {
    assert_eq!(isqrt(0), 0);
    assert_eq!(isqrt(1), 1);
    assert_eq!(isqrt(3), 1);
    assert_eq!(isqrt(4), 2);
    assert_eq!(isqrt(422_500), 650);
    assert_eq!(isqrt(u64::MAX as u128), 0xFFFF_FFFF);
    let big: u128 = (1u128 << 100) - 1;
    let r = isqrt(big);
    assert!(r * r <= big);
    assert!((r + 1) * (r + 1) > big);
}

#[test]
fn zobrist_table_matches_generator_stream() {
    // Zero remaining hit points always hash to zero; every other entry is
    // one draw of the fixed-seed generator, in row-major key order.
    let z = ZobristHash::new();
    let mut rng = Xoshiro256::new(42);
    assert_eq!(z.get(0, 0, 0), 0);
    assert_eq!(z.get(0, 0, 1), rng.next());
    assert_eq!(z.get(0, 0, 2), rng.next());
    // Draws 3..=499 fill the rest of the first (turn, lane) block.
    for _ in 3..500 {
        rng.next();
    }
    assert_eq!(z.get(0, 1, 0), 0);
    assert_eq!(z.get(0, 1, 1), rng.next());
}

#[test]
fn xoshiro_is_deterministic() {
    let mut a = Xoshiro256::new(42);
    let mut b = Xoshiro256::new(42);
    for _ in 0..100 {
        assert_eq!(a.next(), b.next());
    }
    let mut c = Xoshiro256::new(43);
    let mut same = true;
    let mut a2 = Xoshiro256::new(42);
    for _ in 0..10 {
        if a2.next() != c.next() {
            same = false;
        }
    }
    assert!(!same);
}

#[test]
fn generated_values_stay_in_range() {
    let mut rng = Xoshiro256::new(7);
    for _ in 0..200 {
        let u = rng.gen_usize(10, 20);
        assert!((10..20).contains(&u));
        let i = rng.gen_i32(-5, 5);
        assert!((-5..5).contains(&i));
    }
}

#[test]
fn split_mix_advances_its_seed() {
    let mut x: u64 = 0;
    let a = split_mix_64(&mut x);
    let x_after_one = x;
    let b = split_mix_64(&mut x);
    assert_ne!(a, b);
    assert_ne!(x_after_one, 0);
    assert_ne!(x, x_after_one);
    // The same seed always yields the same stream.
    let mut y: u64 = 0;
    assert_eq!(split_mix_64(&mut y), a);
    assert_eq!(split_mix_64(&mut y), b);
}
