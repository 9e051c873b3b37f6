use bevy::math::Vec3;
use tower_defense::components::Enemy;
use tower_defense::geometry::Vec2;
use tower_defense::path::{
    calculate_position_on_path, calculate_total_path_length, enemy_path, PathTable, ENEMY_PATH,
};

/// A real number as a fixed-point count of thousandths.
fn fx(value: f32) -> i64 {
    (value * 1000.0).round() as i64
}

/// A fixed-point count of thousandths as a real number.
fn units(value: i64) -> f32 {
    value as f32 / 1000.0
}

/// A point of the route on the layer that enemies are drawn on.
fn on_enemy_layer(p: Vec2) -> Vec3 {
    Vec3::new(units(p.x as i64), units(p.y as i64), 1.0)
}

#[test]
fn test_calculate_total_path_length() {
    let total_length = units(calculate_total_path_length());

    // Path should have positive length
    assert!(total_length > 0.0);

    // Manually calculate expected length for validation
    let expected_segments = [
        // (-400, 200) to (-200, 200): horizontal 200 units
        200.0, // (-200, 200) to (-200, -100): vertical 300 units
        300.0, // (-200, -100) to (200, -100): horizontal 400 units
        400.0, // (200, -100) to (200, 100): vertical 200 units
        200.0, // (200, 100) to (400, 100): horizontal 200 units
        200.0,
    ];

    let expected_total: f32 = expected_segments.iter().sum();
    assert!((total_length - expected_total).abs() < 0.1);
    assert_eq!(calculate_total_path_length(), 1_300_000);
}

#[test]
fn test_calculate_position_on_path_start() {
    let start_pos = on_enemy_layer(calculate_position_on_path(fx(0.0)));

    assert_eq!(start_pos.x, units(ENEMY_PATH[0].0 as i64));
    assert_eq!(start_pos.y, units(ENEMY_PATH[0].1 as i64));
    assert_eq!(start_pos.z, 1.0);
}

#[test]
fn test_calculate_position_on_path_end() {
    let total_length = calculate_total_path_length();
    let end_pos = on_enemy_layer(calculate_position_on_path(total_length));

    let last_waypoint = ENEMY_PATH[ENEMY_PATH.len() - 1];
    assert_eq!(end_pos.x, units(last_waypoint.0 as i64));
    assert_eq!(end_pos.y, units(last_waypoint.1 as i64));
    assert_eq!(end_pos.z, 1.0);
}

#[test]
fn test_calculate_position_on_path_middle() {
    // Test position halfway through first segment
    let pos = on_enemy_layer(calculate_position_on_path(fx(100.0)));

    // Should be halfway between (-400, 200) and (-200, 200)
    assert_eq!(pos.x, -300.0);
    assert_eq!(pos.y, 200.0);
    assert_eq!(pos.z, 1.0);
}

#[test]
fn test_calculate_position_beyond_path() {
    let total_length = calculate_total_path_length();
    let beyond_pos = on_enemy_layer(calculate_position_on_path(total_length + fx(100.0)));

    // Should return the final waypoint position
    let last_waypoint = ENEMY_PATH[ENEMY_PATH.len() - 1];
    assert_eq!(beyond_pos.x, units(last_waypoint.0 as i64));
    assert_eq!(beyond_pos.y, units(last_waypoint.1 as i64));
    assert_eq!(beyond_pos.z, 1.0);
}

#[test]
fn test_enemy_path_segments() {
    // Test that each segment in the path makes sense
    for i in 0..ENEMY_PATH.len() - 1 {
        let start = Vec2::new(ENEMY_PATH[i].0, ENEMY_PATH[i].1);
        let end = Vec2::new(ENEMY_PATH[i + 1].0, ENEMY_PATH[i + 1].1);
        let distance = units(start.distance(end) as i64);

        // Each segment should have positive length
        assert!(
            distance > 0.0,
            "Path segment {i} should have positive length"
        );

        // No segment should be unreasonably long
        assert!(
            distance < 1000.0,
            "Path segment {i} is too long: {distance}"
        );
    }
}

#[test]
fn test_enemy_constants() {
    // Test that enemy constants are reasonable
    let enemy = Enemy {
        health: fx(100.0) as i32,
        max_health: fx(100.0) as i32,
        speed: fx(50.0) as u32,
        path_progress: fx(0.0),
    };

    assert!(units(enemy.health as i64) > 0.0);
    assert!(units(enemy.max_health as i64) > 0.0);
    assert!(units(enemy.speed as i64) > 0.0);
    assert!(units(enemy.path_progress) >= 0.0);

    // Health should not exceed max health initially
    assert!(enemy.health <= enemy.max_health);
}

#[test]
fn test_path_progression() {
    let total_length = units(calculate_total_path_length());

    // Test various progression points
    let test_points = [
        0.0,
        total_length * 0.25,
        total_length * 0.5,
        total_length * 0.75,
        total_length,
    ];

    for &progress in &test_points {
        let pos = on_enemy_layer(calculate_position_on_path(fx(progress)));

        // All positions should have z = 1.0
        assert_eq!(pos.z, 1.0);

        // Positions should be within reasonable bounds
        assert!(pos.x >= -500.0 && pos.x <= 500.0);
        assert!(pos.y >= -200.0 && pos.y <= 300.0);
    }
}

#[test]
fn position_follows_every_segment() {
    let p = |x: i32, y: i32| Vec2::new(x, y);
    assert_eq!(calculate_position_on_path(200_000), p(-200_000, 200_000));
    assert_eq!(calculate_position_on_path(200_001), p(-200_000, 199_999));
    assert_eq!(calculate_position_on_path(350_000), p(-200_000, 50_000));
    assert_eq!(calculate_position_on_path(500_000), p(-200_000, -100_000));
    assert_eq!(calculate_position_on_path(700_000), p(0, -100_000));
    assert_eq!(calculate_position_on_path(1_000_000), p(200_000, 0));
    assert_eq!(calculate_position_on_path(1_299_999), p(399_999, 100_000));
    assert_eq!(calculate_position_on_path(1_300_001), p(400_000, 100_000));
    assert_eq!(calculate_position_on_path(i64::MAX), p(400_000, 100_000));
}

#[test]
fn negative_progress_counts_as_zero() {
    assert_eq!(calculate_position_on_path(-1), Vec2::new(-400_000, 200_000));
    assert_eq!(calculate_position_on_path(i64::MIN), Vec2::new(-400_000, 200_000));
}

#[test]
fn diagonal_segments_are_rounded_down() {
    let path = PathTable::new(vec![Vec2::new(0, 0), Vec2::new(3000, 4000), Vec2::new(4000, 5000)])
        .expect("a valid route");
    // 5000 for the first segment, 1414 (the root of 2 000 000, rounded down) for the second.
    assert_eq!(path.total_length(), 6414);
    assert_eq!(path.position_at(2500), Vec2::new(1500, 2000));
    assert_eq!(path.position_at(5000), Vec2::new(3000, 4000));
    assert_eq!(path.position_at(5707), Vec2::new(3500, 4500));
    assert_eq!(path.position_at(6414), Vec2::new(4000, 5000));
}

#[test]
fn interpolation_rounds_toward_the_start_of_the_segment() {
    let path = PathTable::new(vec![Vec2::new(0, 0), Vec2::new(-10, 10)]).expect("a valid route");
    // The segment is 14 long; 5 of 14 along it lies at (-3.57, 3.57).
    assert_eq!(path.total_length(), 14);
    assert_eq!(path.position_at(5), Vec2::new(-3, 3));
}

#[test]
fn routes_are_checked_when_made() {
    assert!(PathTable::new(vec![]).is_none());
    assert!(PathTable::new(vec![Vec2::new(1, 1)]).is_none());
    assert!(PathTable::new(vec![Vec2::new(1, 1), Vec2::new(1, 1)]).is_none());
    assert!(PathTable::new(vec![Vec2::new(0, 0), Vec2::new(5, 0), Vec2::new(5, 0)]).is_none());
    assert!(PathTable::new(vec![Vec2::new(1, 1), Vec2::new(1, 2)]).is_some());
}

#[test]
fn the_route_of_the_game_has_six_waypoints() {
    let path = enemy_path();
    assert_eq!(path.len(), 6);
    for i in 0..6 {
        assert_eq!(path.waypoint(i), Vec2::new(ENEMY_PATH[i].0, ENEMY_PATH[i].1));
    }
}
