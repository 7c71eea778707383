use comet::game::{Game, GameResult, Outcome, DAMAGE_CEILING};
use rand::rngs::StdRng;
use rand::SeedableRng;

fn outcome_rule(g: &Game, r: &GameResult) -> bool {
    let win = (r.damage >= g.target_dmg)
        || (g.include_squirrels && r.damage as u64 + r.squirrels as u64 >= g.target_dmg as u64);
    win == (r.outcome == Outcome::Win)
}

#[test]
fn new_game_starts_fresh() {
    let g = Game::new(true, 2, 5, 20);
    assert_eq!(g.activations_left, 1);
    assert_eq!(g.loyalty, 5);
    assert_eq!((g.damage, g.squirrels, g.rolls, g.returns), (0, 0, 0, 0));
    assert_eq!(g.roll_advantage, 2);
    assert!(g.include_squirrels);
    assert_eq!(g.target_dmg, 20);
}

#[test]
fn forced_dice_scenario_loses() {
    // One activation is available; the first die (a 4) uses it up.
    let mut g = Game::new(false, 0, 5, 20);
    let r = g.run_with_dice(&[4, 6, 4, 3, 1, 4]);
    assert_eq!(r.outcome, Outcome::Lose);
    assert_eq!(r.damage, 5);
    assert_eq!(r.squirrels, 0);
    assert_eq!(r.rolls, 1);
    assert_eq!(r.returns, 0);
    assert_eq!(g.loyalty, 3);
    assert_eq!(g.activations_left, 0);
}

#[test]
fn six_grants_two_more_activations() {
    let mut g = Game::new(false, 0, 5, 10);
    let r = g.run_with_dice(&[6, 4, 4, 3]);
    // 6: loyalty 6, two more; 4: 6 damage, loyalty 4; 4: 4 damage, loyalty 2.
    assert_eq!(r.damage, 10);
    assert_eq!(g.loyalty, 2);
    assert_eq!(g.activations_left, 0);
    assert_eq!(r.rolls, 3);
    assert_eq!(r.outcome, Outcome::Win);
}

#[test]
fn low_roll_adds_loyalty_and_squirrels() {
    for roll in [1u32, 2] {
        let mut g = Game::new(false, 0, 5, 20);
        g.activate_with_dice(&[roll]);
        assert_eq!(g.loyalty, 7);
        assert_eq!(g.squirrels, 2);
        assert_eq!(g.activations_left, 0);
        assert_eq!(g.rolls, 1);
    }
}

#[test]
fn three_costs_loyalty_and_returns_a_card() {
    let mut g = Game::new(false, 0, 5, 20);
    g.activate_with_dice(&[3]);
    assert_eq!(g.loyalty, 4);
    assert_eq!(g.returns, 1);
    assert_eq!(g.damage, 0);
}

#[test]
fn four_or_five_deals_loyalty_as_damage() {
    for roll in [4u32, 5] {
        let mut g = Game::new(false, 0, 7, 20);
        g.activate_with_dice(&[roll]);
        assert_eq!(g.damage, 7);
        assert_eq!(g.loyalty, 5);
    }
}

#[test]
fn six_adds_loyalty_and_activations() {
    let mut g = Game::new(false, 0, 5, 20);
    g.activate_with_dice(&[6]);
    assert_eq!(g.loyalty, 6);
    assert_eq!(g.activations_left, 2);
}

#[test]
fn advantage_keeps_the_largest_die() {
    let mut g = Game::new(false, 2, 5, 20);
    g.activate_with_dice(&[1, 5, 2]);
    assert_eq!(g.damage, 5);
    assert_eq!(g.loyalty, 3);
    assert_eq!(g.squirrels, 0);
    assert_eq!(g.rolls, 3);
}

#[test]
fn activation_without_loyalty_does_nothing() {
    let mut g = Game::new(false, 0, 0, 20);
    g.activate_with_dice(&[4]);
    assert_eq!((g.damage, g.loyalty, g.activations_left, g.rolls), (0, 0, 1, 0));
    let mut rng = StdRng::seed_from_u64(3);
    g.activate(&mut rng);
    assert_eq!((g.damage, g.loyalty, g.activations_left, g.rolls), (0, 0, 1, 0));
}

#[test]
fn activation_without_activations_does_nothing() {
    let mut g = Game::new(false, 0, 5, 20);
    g.activate_with_dice(&[3]);
    g.activate_with_dice(&[4]);
    assert_eq!((g.damage, g.loyalty, g.activations_left, g.rolls), (0, 4, 0, 1));
}

#[test]
fn squirrels_count_only_when_included() {
    let mut with = Game::new(true, 0, 5, 2);
    let r = with.run_with_dice(&[1]);
    assert_eq!((r.damage, r.squirrels), (0, 2));
    assert_eq!(r.outcome, Outcome::Win);

    let mut without = Game::new(false, 0, 5, 2);
    let r = without.run_with_dice(&[1]);
    assert_eq!(r.outcome, Outcome::Lose);
}

#[test]
fn damage_ceiling_stops_the_run() {
    let mut g = Game::new(false, 0, 20000, 20);
    let r = g.run_with_dice(&[6, 4, 4, 4]);
    assert!(r.damage >= DAMAGE_CEILING);
    assert_eq!(r.damage, 20001);
    assert_eq!(r.rolls, 2);
    assert_eq!(g.activations_left, 1);
}

#[test]
fn run_stops_when_dice_run_out() {
    let mut g = Game::new(false, 1, 5, 0);
    let r = g.run_with_dice(&[6, 6, 4]);
    // The group [6, 6] is one activation; [4] is not a full group.
    assert_eq!(r.rolls, 2);
    assert_eq!(g.activations_left, 2);
    assert_eq!(r.outcome, Outcome::Win);
}

#[test]
fn random_run_is_finished_and_consistent() {
    let mut rng = StdRng::seed_from_u64(42);
    for adv in 0..4usize {
        for _ in 0..200 {
            let mut g = Game::new(true, adv, 5, 20);
            let r = g.run(&mut rng);
            assert!(g.activations_left == 0 || g.loyalty <= 0 || g.damage >= DAMAGE_CEILING);
            assert_eq!(r.rolls % (1 + adv), 0);
            assert!(r.rolls >= 1 + adv);
            assert!(outcome_rule(&g, &r));
        }
    }
}

#[test]
fn seeded_runs_repeat() {
    for seed in [0u64, 1, 99] {
        let mut a = StdRng::seed_from_u64(seed);
        let mut b = StdRng::seed_from_u64(seed);
        for _ in 0..50 {
            let ra = Game::new(true, 1, 5, 20).run(&mut a);
            let rb = Game::new(true, 1, 5, 20).run(&mut b);
            assert_eq!(ra, rb);
        }
    }
}
