use bevy::time::{Timer, TimerMode};
use std::time::Duration;
use tower_defense::geometry::Vec2;
use tower_defense::path::ENEMY_PATH;
use tower_defense::resources::{GameState, WaveTimer, STARTING_HEALTH, STARTING_MONEY, WAVE_PERIOD};
use tower_defense::systems::tower::TOWER_COST;
use tower_defense::systems::ui::{health_text, score_text};

/// A fixed-point count of thousandths as a real number.
fn units(value: i64) -> f32 {
    value as f32 / 1000.0
}

#[test]
fn test_game_state_default() {
    let game_state = GameState::default();

    assert_eq!(game_state.player_health, 20);
    assert_eq!(game_state.score, 0);
    assert_eq!(game_state.money, 100);
}

#[test]
fn test_game_state_operations() {
    let mut game_state = GameState::default();

    // Test taking damage
    game_state.player_health -= 1;
    assert_eq!(game_state.player_health, 19);

    // Test scoring
    game_state.score += 10;
    assert_eq!(game_state.score, 10);

    // Test spending money
    game_state.money -= 20;
    assert_eq!(game_state.money, 80);

    // Test earning money
    game_state.money += 5;
    assert_eq!(game_state.money, 85);
}

#[test]
fn test_wave_timer_default() {
    let wave_timer = WaveTimer::default();

    assert_eq!(units(wave_timer.duration() as i64), 2.0);
    assert!(!wave_timer.finished());
}

#[test]
fn test_enemy_path_validity() {
    // Test that we have the expected number of waypoints
    assert_eq!(ENEMY_PATH.len(), 6);

    // Test that path starts and ends at reasonable positions
    let start = ENEMY_PATH[0];
    let end = ENEMY_PATH[ENEMY_PATH.len() - 1];

    assert_eq!((units(start.0 as i64), units(start.1 as i64)), (-400.0, 200.0));
    assert_eq!((units(end.0 as i64), units(end.1 as i64)), (400.0, 100.0));

    // Test that all path points are reasonable (within expected bounds)
    for (x, y) in ENEMY_PATH {
        let (x, y) = (units(x as i64), units(y as i64));
        assert!(
            (-500.0..=500.0).contains(&x),
            "X coordinate {x} out of bounds"
        );
        assert!(
            (-200.0..=300.0).contains(&y),
            "Y coordinate {y} out of bounds"
        );
    }
}

#[test]
fn test_path_segments() {
    // Calculate total path length for testing
    let mut total_length = 0.0;
    for i in 0..ENEMY_PATH.len() - 1 {
        let start = Vec2::new(ENEMY_PATH[i].0, ENEMY_PATH[i].1);
        let end = Vec2::new(ENEMY_PATH[i + 1].0, ENEMY_PATH[i + 1].1);
        total_length += units(start.distance(end) as i64);
    }

    // Path should be reasonably long for a tower defense game
    assert!(total_length > 0.0);
    assert!(total_length < 2000.0); // Not too long
}

#[test]
fn test_game_balance() {
    let game_state = GameState::default();

    // Test initial game balance
    assert!(
        game_state.money >= 20,
        "Player should start with enough money for at least one tower"
    );
    assert!(
        game_state.player_health > 0,
        "Player should start with positive health"
    );

    // Test that initial money allows for tower placement
    let tower_cost = 20;
    let max_towers = game_state.money / tower_cost;
    assert!(
        max_towers >= 1,
        "Should be able to place at least one tower initially"
    );
    assert_eq!(tower_cost, TOWER_COST);
}

#[test]
fn the_starting_economy_is_named() {
    assert_eq!(STARTING_HEALTH, 20);
    assert_eq!(STARTING_MONEY, 100);
    assert_eq!(WAVE_PERIOD, 2000);
}

#[test]
fn a_wave_clock_needs_a_period() {
    assert!(WaveTimer::new(0).is_none());
    let timer = WaveTimer::new(1).expect("a period of one millisecond");
    assert_eq!(timer.duration(), 1);
    assert_eq!(timer.elapsed(), 0);
    assert!(!timer.just_finished());
}

#[test]
fn the_wave_clock_finishes_when_its_period_is_reached() {
    let mut timer = WaveTimer::default();
    timer.tick(750);
    assert_eq!(timer.elapsed(), 750);
    assert!(!timer.just_finished());
    assert!(!timer.finished());
    timer.tick(1249);
    assert_eq!(timer.elapsed(), 1999);
    assert!(!timer.just_finished());
    timer.tick(1);
    assert_eq!(timer.elapsed(), 0);
    assert!(timer.just_finished());
    assert!(timer.finished());
    timer.tick(0);
    assert_eq!(timer.elapsed(), 0);
    assert!(!timer.just_finished());
}

#[test]
fn the_wave_clock_carries_what_goes_beyond_a_period() {
    let mut timer = WaveTimer::default();
    timer.tick(750);
    timer.tick(1500);
    assert_eq!(timer.elapsed(), 250);
    assert!(timer.just_finished());
    timer.tick(1000);
    assert_eq!(timer.elapsed(), 1250);
    assert!(!timer.just_finished());
    assert_eq!(timer.duration(), 2000);
}

#[test]
fn a_long_tick_finishes_once_and_keeps_the_remainder() {
    let mut timer = WaveTimer::default();
    timer.tick(7500);
    assert!(timer.just_finished());
    assert_eq!(timer.elapsed(), 1500);
    let mut timer = WaveTimer::new(1).expect("a period of one millisecond");
    timer.tick(u32::MAX);
    assert!(timer.just_finished());
    assert_eq!(timer.elapsed(), 0);
    let mut timer = WaveTimer::new(u32::MAX).expect("the longest period");
    timer.tick(u32::MAX - 1);
    assert!(!timer.just_finished());
    assert_eq!(timer.elapsed(), u32::MAX - 1);
    timer.tick(u32::MAX);
    assert!(timer.just_finished());
    assert_eq!(timer.elapsed(), u32::MAX - 1);
}

#[test]
fn the_wave_clock_agrees_with_a_repeating_timer() {
    let mut ours = WaveTimer::new(700).expect("a period");
    let mut theirs = Timer::new(Duration::from_millis(700), TimerMode::Repeating);
    for delta in [0u32, 1, 699, 1, 350, 350, 2100, 13, 5000, 687, 699, 2] {
        ours.tick(delta);
        theirs.tick(Duration::from_millis(delta as u64));
        assert_eq!(ours.elapsed() as u128, theirs.elapsed().as_millis());
        assert_eq!(ours.just_finished(), theirs.just_finished());
        assert_eq!(ours.finished(), theirs.finished());
    }
}

#[test]
fn the_economy_is_shown_in_two_lines() {
    let state = GameState::default();
    assert_eq!(health_text(&state), "Health: 20");
    assert_eq!(score_text(&state), "Score: 0 | Money: 100");
    let state = GameState { player_health: -3, score: 1230, money: 5 };
    assert_eq!(health_text(&state), "Health: -3");
    assert_eq!(score_text(&state), "Score: 1230 | Money: 5");
    let state = GameState { player_health: i32::MIN, score: i32::MAX, money: -1 };
    assert_eq!(health_text(&state), format!("Health: {}", i32::MIN));
    assert_eq!(score_text(&state), format!("Score: {} | Money: {}", i32::MAX, -1));
    for n in [0, 7, 9, 10, 11, 99, 100, 101, 1009, -10, -9, 2_000_000_000] {
        let state = GameState { player_health: n, score: n, money: -n };
        assert_eq!(health_text(&state), format!("Health: {}", n));
        assert_eq!(score_text(&state), format!("Score: {} | Money: {}", n, -n));
    }
}
