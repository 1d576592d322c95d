use monty_hall::{choose_one, pick_one, play_round, play_round_with, Game, Play};

#[test]
fn choose_one_follows_the_coin() {
    assert_eq!(choose_one(true, 2, 3), 2);
    assert_eq!(choose_one(false, 2, 3), 3);
}

#[test]
fn pick_one_returns_one_of_its_arguments() {
    let mut seen_one = false;
    let mut seen_two = false;
    for _ in 0..1000 {
        let r = pick_one(1, 3);
        assert!(r == 1 || r == 3);
        seen_one |= r == 1;
        seen_two |= r == 3;
    }
    assert!(seen_one && seen_two);
}

#[test]
fn new_round_is_unset() {
    let g = Game::new(2);
    assert_eq!(g, Game { good_door: 2, door_removed: 0, first_choice: 0, second_choice: 0 });
}

#[test]
fn host_opens_the_only_empty_unpicked_door() {
    let cases = [(1, 2, 3), (1, 3, 2), (2, 1, 3), (2, 3, 1), (3, 1, 2), (3, 2, 1)];
    for (good, first, expected) in cases {
        for heads in [true, false] {
            let mut g = Game::new(good);
            g.choose_first(first);
            g.remove_door_with(heads);
            assert_eq!(g.door_removed, expected);
        }
    }
}

#[test]
fn host_coin_chooses_between_empty_doors() {
    let cases = [(1, 2, 3), (2, 1, 3), (3, 1, 2)];
    for (good, lower, higher) in cases {
        let mut g = Game::new(good);
        g.choose_first(good);
        g.remove_door_with(true);
        assert_eq!(g.door_removed, lower);
        let mut g = Game::new(good);
        g.choose_first(good);
        g.remove_door_with(false);
        assert_eq!(g.door_removed, higher);
    }
}

#[test]
fn second_choice_avoids_the_opened_door() {
    let mut g = Game { good_door: 1, door_removed: 2, first_choice: 1, second_choice: 0 };
    g.choose_second_with(true);
    assert_eq!(g.second_choice, 1);
    g.choose_second_with(false);
    assert_eq!(g.second_choice, 3);
    let mut g = Game { good_door: 3, door_removed: 3, first_choice: 2, second_choice: 0 };
    g.choose_second_with(true);
    assert_eq!(g.second_choice, 1);
    g.choose_second_with(false);
    assert_eq!(g.second_choice, 2);
}

#[test]
fn play_round_with_fixed_draws() {
    let g = play_round_with(1, 2, true, true);
    assert_eq!(g, Game { good_door: 1, door_removed: 3, first_choice: 2, second_choice: 1 });
    let g = play_round_with(2, 2, false, true);
    assert_eq!(g, Game { good_door: 2, door_removed: 3, first_choice: 2, second_choice: 1 });
}

#[test]
fn select_then_remove_then_select() {
    for _ in 0..1000 {
        let mut g = Game::new(3);
        g.select_door();
        assert!((1..=3).contains(&g.first_choice));
        assert_eq!(g.door_removed, 0);
        g.remove_door();
        assert!((1..=3).contains(&g.door_removed));
        assert_ne!(g.door_removed, g.good_door);
        assert_ne!(g.door_removed, g.first_choice);
        let first = g.first_choice;
        g.select_door();
        assert_eq!(g.first_choice, first);
        assert!((1..=3).contains(&g.second_choice));
        assert_ne!(g.second_choice, g.door_removed);
    }
}

#[test]
fn random_rounds_keep_the_door_rules() {
    for _ in 0..10_000 {
        let g = play_round();
        for d in [g.good_door, g.first_choice, g.door_removed, g.second_choice] {
            assert!((1..=3).contains(&d));
        }
        assert_ne!(g.door_removed, g.good_door);
        assert_ne!(g.door_removed, g.first_choice);
        assert_ne!(g.second_choice, g.door_removed);
    }
}

#[test]
fn opened_door_is_even_when_first_pick_is_the_prize() {
    let trials = 200_000;
    let mut lower = 0u64;
    let mut total = 0u64;
    while total < trials {
        let mut g = Game::new(1);
        g.choose_first(1);
        g.remove_door();
        assert!(g.door_removed == 2 || g.door_removed == 3);
        if g.door_removed == 2 {
            lower += 1;
        }
        total += 1;
    }
    let share = lower as f64 / total as f64;
    assert!((share - 0.5).abs() < 0.01, "share of the lower door: {}", share);
}

#[test]
fn switching_wins_about_two_thirds() {
    let trials = 200_000;
    let (mut switched, mut switch_won, mut stayed, mut stay_won) = (0u64, 0u64, 0u64, 0u64);
    for _ in 0..trials {
        let g = play_round();
        let won = g.second_choice == g.good_door;
        if g.first_choice != g.second_choice {
            switched += 1;
            if won {
                switch_won += 1;
            }
        } else {
            stayed += 1;
            if won {
                stay_won += 1;
            }
        }
    }
    let switch_rate = switch_won as f64 / switched as f64;
    let stay_rate = stay_won as f64 / stayed as f64;
    assert!((switch_rate - 2.0 / 3.0).abs() < 0.01, "switch: {}", switch_rate);
    assert!((stay_rate - 1.0 / 3.0).abs() < 0.01, "stay: {}", stay_rate);
}
