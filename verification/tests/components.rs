use tower_defense::components::{
    Bullet, Enemy, Entity, Spawn, Tower, BULLET_SPEED, ENEMY_HEALTH, ENEMY_SPEED, TOWER_DAMAGE,
    TOWER_FIRE_RATE, TOWER_RANGE,
};
use tower_defense::fixed::{isqrt, magnitude, mul_div, mul_signed, SCALE, SCALE_SQUARED};
use tower_defense::geometry::Vec2;

/// A real number as a fixed-point count of thousandths.
fn fx(value: f32) -> i32 {
    (value * 1000.0).round() as i32
}

/// A real vector as a fixed-point vector.
fn fx2(x: f32, y: f32) -> Vec2 {
    Vec2::new(fx(x), fx(y))
}

#[test]
fn test_enemy_creation() {
    let enemy = Enemy {
        health: fx(100.0),
        max_health: fx(100.0),
        speed: fx(50.0) as u32,
        path_progress: fx(0.0) as i64,
    };

    assert_eq!(enemy.health, fx(100.0));
    assert_eq!(enemy.max_health, fx(100.0));
    assert_eq!(enemy.speed, fx(50.0) as u32);
    assert_eq!(enemy.path_progress, fx(0.0) as i64);
}

#[test]
fn test_tower_creation() {
    let tower = Tower {
        damage: fx(25.0) as u32,
        range: fx(100.0) as u32,
        fire_rate: fx(1.0) as u32,
        last_shot: fx(0.0) as u64,
    };

    assert_eq!(tower.damage, fx(25.0) as u32);
    assert_eq!(tower.range, fx(100.0) as u32);
    assert_eq!(tower.fire_rate, fx(1.0) as u32);
    assert_eq!(tower.last_shot, fx(0.0) as u64);
}

#[test]
fn test_bullet_creation() {
    let bullet = Bullet {
        damage: fx(25.0) as u32,
        speed: fx(300.0) as u32,
        direction: fx2(1.0, 0.0),
    };

    assert_eq!(bullet.damage, fx(25.0) as u32);
    assert_eq!(bullet.speed, fx(300.0) as u32);
    assert_eq!(bullet.direction, fx2(1.0, 0.0));
}

#[test]
fn test_enemy_damage() {
    let mut enemy = Enemy {
        health: fx(100.0),
        max_health: fx(100.0),
        speed: fx(50.0) as u32,
        path_progress: fx(0.0) as i64,
    };

    // Simulate taking damage
    enemy.health -= fx(25.0);
    assert_eq!(enemy.health, fx(75.0));

    // Check if enemy should be dead
    enemy.health -= fx(100.0);
    assert!(enemy.health <= fx(0.0));
}

#[test]
fn fresh_entities_have_the_stats_of_the_game() {
    assert_eq!(
        Enemy::fresh(),
        Enemy { health: 100_000, max_health: 100_000, speed: 50_000, path_progress: 0 }
    );
    assert_eq!(
        Tower::fresh(),
        Tower { damage: 25_000, range: 100_000, fire_rate: 1000, last_shot: 0 }
    );
    assert_eq!(ENEMY_HEALTH, 100_000);
    assert_eq!(ENEMY_SPEED, 50_000);
    assert_eq!(TOWER_DAMAGE, 25_000);
    assert_eq!(TOWER_RANGE, 100_000);
    assert_eq!(TOWER_FIRE_RATE, 1000);
    assert_eq!(BULLET_SPEED, 300_000);
    assert_eq!(SCALE, 1000);
    assert_eq!(SCALE_SQUARED, 1_000_000);
}

#[test]
fn entities_and_requests_compare_by_their_fields() {
    let e = Entity { id: 7, position: fx2(1.0, 2.0), component: Enemy::fresh() };
    assert_eq!(e, Entity { id: 7, position: Vec2 { x: 1000, y: 2000 }, component: Enemy::fresh() });
    assert_ne!(e, Entity { id: 8, ..e });
    let s = Spawn { position: fx2(1.0, 2.0), component: Tower::fresh() };
    assert_eq!(s.position, e.position);
    assert_eq!(s.component.damage, 25_000);
}

#[test]
fn square_roots_are_rounded_down() {
    assert_eq!(isqrt(0), 0);
    assert_eq!(isqrt(1), 1);
    assert_eq!(isqrt(2), 1);
    assert_eq!(isqrt(3), 1);
    assert_eq!(isqrt(4), 2);
    assert_eq!(isqrt(99), 9);
    assert_eq!(isqrt(100), 10);
    assert_eq!(isqrt(40_000_000_000), 200_000);
    assert_eq!(isqrt(39_999_999_999), 199_999);
    assert_eq!(isqrt(u64::MAX as u128), 0xFFFF_FFFF);
    assert_eq!(isqrt(u128::MAX), u64::MAX);
    assert_eq!(isqrt((u64::MAX as u128) * (u64::MAX as u128)), u64::MAX);
    assert_eq!(isqrt((u64::MAX as u128) * (u64::MAX as u128) - 1), u64::MAX - 1);
}

#[test]
fn quotients_are_rounded_toward_zero() {
    assert_eq!(mul_div(7, 3, 2), 10);
    assert_eq!(mul_div(-7, 3, 2), -10);
    assert_eq!(mul_div(0, 3, 2), 0);
    assert_eq!(mul_div(-1, 1, 2), 0);
    assert_eq!(mul_div(1, 1, 2), 0);
    assert_eq!(mul_div(6, 5, 3), 10);
    assert_eq!(mul_div(-6, 5, 3), -10);
    assert_eq!(mul_div(i64::MAX, u64::MAX, 1), (i64::MAX as i128) * (u64::MAX as i128));
    assert_eq!(mul_div(i64::MIN, u64::MAX, 1), (i64::MIN as i128) * (u64::MAX as i128));
    assert_eq!(mul_div(i64::MIN, 1, u64::MAX), 0);
}

#[test]
fn magnitudes_and_products_are_exact() {
    assert_eq!(magnitude(0), 0);
    assert_eq!(magnitude(5), 5);
    assert_eq!(magnitude(-5), 5);
    assert_eq!(magnitude(i64::MAX), i64::MAX as u64);
    assert_eq!(magnitude(i64::MIN), 1u64 << 63);
    assert_eq!(mul_signed(-3, 4), -12);
    assert_eq!(mul_signed(i32::MIN, u32::MAX), (i32::MIN as i64) * (u32::MAX as i64));
    assert_eq!(mul_signed(i32::MAX, u32::MAX), (i32::MAX as i64) * (u32::MAX as i64));
}

#[test]
fn distances_are_exact_when_squared_and_rounded_down_else() {
    let a = fx2(0.0, 0.0);
    let b = fx2(3.0, 4.0);
    assert_eq!(a.distance_squared(b), 25_000_000);
    assert_eq!(b.distance_squared(a), 25_000_000);
    assert_eq!(a.distance(b), 5000);
    assert_eq!(a.distance(a), 0);
    assert_eq!(Vec2::new(0, 0).distance(Vec2::new(1, 1)), 1);
    assert_eq!(Vec2::new(0, 0).distance(Vec2::new(2, 2)), 2);
    let far = Vec2::new(i32::MIN, i32::MIN).distance_squared(Vec2::new(i32::MAX, i32::MAX));
    assert_eq!(far, 2 * (u32::MAX as u128) * (u32::MAX as u128));
    assert_eq!(Vec2::new(i32::MIN, i32::MIN).distance(Vec2::new(i32::MAX, i32::MAX)), 6_074_000_998);
}

#[test]
fn directions_are_unit_vectors_rounded_toward_zero() {
    let origin = fx2(0.0, 0.0);
    assert_eq!(origin.direction_to(fx2(10.0, 0.0)), fx2(1.0, 0.0));
    assert_eq!(origin.direction_to(fx2(-10.0, 0.0)), fx2(-1.0, 0.0));
    assert_eq!(origin.direction_to(fx2(0.0, 0.003)), fx2(0.0, 1.0));
    assert_eq!(origin.direction_to(fx2(3.0, 4.0)), fx2(0.6, 0.8));
    assert_eq!(origin.direction_to(fx2(-3.0, -4.0)), fx2(-0.6, -0.8));
    // 1 / sqrt(2) = 0.7071...
    assert_eq!(origin.direction_to(fx2(1.0, 1.0)), Vec2::new(707, 707));
    assert_eq!(origin.direction_to(fx2(1.0, -1.0)), Vec2::new(707, -707));
    // 1 / sqrt(5) = 0.4472..., 2 / sqrt(5) = 0.8944...
    assert_eq!(origin.direction_to(Vec2::new(1, 2)), Vec2::new(447, 894));
    assert_eq!(
        Vec2::new(i32::MIN, i32::MAX).direction_to(Vec2::new(i32::MAX, i32::MIN)),
        Vec2::new(707, -707)
    );
}

#[test]
fn the_direction_to_the_same_point_is_the_zero_vector() {
    let p = fx2(12.5, -7.25);
    assert_eq!(p.direction_to(p), Vec2::new(0, 0));
}

#[test]
fn directions_are_as_long_as_a_unit_but_for_rounding() {
    let from = Vec2::new(-17, 40_000);
    let mut x: i32 = -2_000_000_000;
    while x < 2_000_000_000 {
        let mut y: i32 = -2_000_000_000;
        while y < 2_000_000_000 {
            let u = from.direction_to(Vec2::new(x, y));
            let length_squared = (u.x as i64) * (u.x as i64) + (u.y as i64) * (u.y as i64);
            assert!(length_squared <= 1_000_000, "too long toward ({x}, {y})");
            assert!(length_squared > 1_000_000 - 4 * 1000 - 2, "too short toward ({x}, {y})");
            y += 131_071_071;
        }
        x += 97_531_013;
    }
    for (x, y) in [(1, 0), (0, -1), (1, 1), (-1, 2), (3, -1), (-2, -3)] {
        let u = from.direction_to(Vec2::new(from.x + x, from.y + y));
        let length_squared = (u.x as i64) * (u.x as i64) + (u.y as i64) * (u.y as i64);
        assert!(length_squared <= 1_000_000);
        assert!(length_squared > 1_000_000 - 4 * 1000 - 2);
    }
}
