//! Bullets: their flight, and what they do to the enemies they hit.

use vstd::prelude::*;
use crate::components::{ordered_below, Bullet, Enemy, Entity};
use crate::fixed::{abs, div_toward_zero, lemma_mul_bound, mul_div, mul_signed, SCALE_SQUARED};
use crate::geometry::Vec2;
use crate::resources::GameState;
use crate::sound::{SoundEvent, SoundType};

verus! {

/// A bullet hits an enemy that is closer to it than this.
pub const COLLISION_RADIUS: u32 = 16_000;

/// Points scored for a kill.
pub const KILL_SCORE: i32 = 10;

/// Money earned for a kill.
pub const KILL_MONEY: i32 = 5;

/// Half the width of the play area: a bullet further from the middle than
/// this, to the left or to the right, is gone.
pub const HALF_WIDTH: i32 = 600_000;

/// Half the height of the play area.
pub const HALF_HEIGHT: i32 = 400_000;

/// Whether a point lies in the play area, its border included.
pub open spec fn in_play_area(x: int, y: int) -> bool {
    -HALF_WIDTH <= x <= HALF_WIDTH && -HALF_HEIGHT <= y <= HALF_HEIGHT
}

/// How far a bullet flies along one axis in `dt` milliseconds, where `toward`
/// is that coordinate of its direction: direction times speed times time,
/// rounded toward zero.
pub open spec fn flight(toward: int, speed: int, dt: int) -> int {
    div_toward_zero(toward * speed * dt, SCALE_SQUARED as int)
}

/// What `dt` milliseconds of flight make of a bullet: the bullet at its new
/// position, or nothing where that position lies outside the play area.
pub open spec fn fly(dt: int) -> spec_fn(Entity<Bullet>) -> Option<Entity<Bullet>> {
    |b: Entity<Bullet>|
        {
            let x = b.position.x + flight(b.component.direction.x as int, b.component.speed as int, dt);
            let y = b.position.y + flight(b.component.direction.y as int, b.component.speed as int, dt);
            if in_play_area(x, y) {
                Some(Entity { position: Vec2 { x: x as i32, y: y as i32 }, ..b })
            } else {
                None
            }
        }
}

/// A bullet is removed exactly when its flight takes it out of the play
/// area: never before it has left, and at once when it has. A bullet that
/// stays is changed in nothing but its position.
pub proof fn lemma_culled_when_outside(bullet: Entity<Bullet>, dt: int)
    ensures
        ({
            let x = bullet.position.x + flight(
                bullet.component.direction.x as int,
                bullet.component.speed as int,
                dt,
            );
            let y = bullet.position.y + flight(
                bullet.component.direction.y as int,
                bullet.component.speed as int,
                dt,
            );
            &&& fly(dt)(bullet) is None <==> x < -HALF_WIDTH || x > HALF_WIDTH || y < -HALF_HEIGHT
                || y > HALF_HEIGHT
            &&& fly(dt)(bullet) matches Some(flown) ==> flown.position.x == x && flown.position.y
                == y && flown.id == bullet.id && flown.component == bullet.component
        }),
{
}

/// One coordinate of a bullet after `dt` milliseconds of flight.
fn fly_coordinate(from: i32, toward: i32, speed: u32, dt: u32) -> (to: i128)
    ensures
        to == from + flight(toward as int, speed as int, dt as int),
{
    let rate: i64 = mul_signed(toward, speed);
    proof {
        lemma_mul_bound(abs(rate as int), dt as int, 0x8000_0000int * 0xFFFF_FFFFint, 0xFFFF_FFFF);
    }
    let offset: i128 = mul_div(rate, dt as u64, SCALE_SQUARED);
    from as i128 + offset
}

/// Moves every bullet along its direction for `dt` milliseconds and removes
/// those that leave the play area. The bullets that stay keep their order.
pub fn bullet_movement(bullets: &mut Vec<Entity<Bullet>>, dt: u32)
    ensures
        final(bullets)@ == old(bullets)@.filter_map(fly(dt as int)),
        final(bullets)@.len() <= old(bullets)@.len(),
{
    let ghost before = bullets@;
    let mut kept: Vec<Entity<Bullet>> = Vec::new();
    let mut i: usize = 0;
    while i < bullets.len()
        invariant
            bullets@ == before,
            0 <= i <= bullets.len(),
            kept@ == before.take(i as int).filter_map(fly(dt as int)),
            kept@.len() <= i,
        decreases bullets.len() - i,
    {
        let b: Entity<Bullet> = bullets[i];
        let x: i128 = fly_coordinate(b.position.x, b.component.direction.x, b.component.speed, dt);
        let y: i128 = fly_coordinate(b.position.y, b.component.direction.y, b.component.speed, dt);
        proof {
            before.lemma_filter_map_take_succ(fly(dt as int), i as int);
        }
        if -(HALF_WIDTH as i128) <= x && x <= HALF_WIDTH as i128 && -(HALF_HEIGHT as i128) <= y
            && y <= HALF_HEIGHT as i128 {
            kept.push(
                Entity {
                    id: b.id,
                    position: Vec2 { x: x as i32, y: y as i32 },
                    component: b.component,
                },
            );
        }
        i = i + 1;
    }
    proof {
        assert(before.take(before.len() as int) == before);
    }
    *bullets = kept;
}

/// Whether a bullet at `bullet` hits an enemy at `enemy`.
pub open spec fn touches(bullet: Vec2, enemy: Vec2) -> bool {
    bullet.spec_distance_squared(enemy) < COLLISION_RADIUS * COLLISION_RADIUS
}

/// The first enemy from index `from` on that a bullet at `at` hits; the
/// number of enemies where it hits none.
pub open spec fn first_touched(enemies: Seq<Entity<Enemy>>, at: Vec2, from: int) -> int
    decreases enemies.len() - from,
{
    if from >= enemies.len() {
        enemies.len() as int
    } else if touches(at, enemies[from].position) {
        from
    } else {
        first_touched(enemies, at, from + 1)
    }
}

/// The enemies, the economy and the feedback while the bullets of a frame
/// are resolved one after the other, and the bullets that have hit nothing.
pub struct Battle {
    pub enemies: Seq<Entity<Enemy>>,
    pub bullets: Seq<Entity<Bullet>>,
    pub score: int,
    pub money: int,
    pub events: Seq<SoundEvent>,
}

/// An enemy with the hit points that a hit has left it.
pub open spec fn wounded(enemy: Entity<Enemy>, health: i32) -> Entity<Enemy> {
    Entity { component: Enemy { health, ..enemy.component }, ..enemy }
}

/// What one bullet does. It hits the first enemy that it touches, and no
/// other: the enemy loses the bullet's damage, the bullet is spent, and a hit
/// is reported where the enemy stands. An enemy left with no hit points dies:
/// its death is reported, it is removed at once, and the kill is rewarded. A
/// bullet that touches no enemy stays.
pub open spec fn resolve_bullet(battle: Battle, bullet: Entity<Bullet>) -> Battle {
    let j = first_touched(battle.enemies, bullet.position, 0);
    if j >= battle.enemies.len() {
        Battle { bullets: battle.bullets.push(bullet), ..battle }
    } else {
        let target = battle.enemies[j];
        let health = target.component.health - bullet.component.damage;
        let hit = SoundEvent { sound_type: SoundType::Hit, position: target.position };
        let death = SoundEvent { sound_type: SoundType::Death, position: target.position };
        if health <= 0 {
            Battle {
                enemies: battle.enemies.remove(j),
                score: battle.score + KILL_SCORE,
                money: battle.money + KILL_MONEY,
                events: battle.events.push(hit).push(death),
                ..battle
            }
        } else {
            Battle {
                enemies: battle.enemies.update(j, wounded(target, health as i32)),
                events: battle.events.push(hit),
                ..battle
            }
        }
    }
}

/// What the bullets do, one after the other in their order.
pub open spec fn resolve(battle: Battle, bullets: Seq<Entity<Bullet>>) -> Battle
    decreases bullets.len(),
{
    if bullets.len() == 0 {
        battle
    } else {
        resolve_bullet(resolve(battle, bullets.drop_last()), bullets.last())
    }
}

/// The enemy that `first_touched` finds is touched, and none before it is.
pub proof fn lemma_first_touched(enemies: Seq<Entity<Enemy>>, at: Vec2, from: int)
    requires
        0 <= from,
    ensures
        from <= first_touched(enemies, at, from) || first_touched(enemies, at, from)
            == enemies.len(),
        first_touched(enemies, at, from) <= enemies.len(),
        first_touched(enemies, at, from) < enemies.len() ==> touches(
            at,
            enemies[first_touched(enemies, at, from)].position,
        ),
        forall|k: int|
            from <= k < first_touched(enemies, at, from) ==> !touches(
                at,
                #[trigger] enemies[k].position,
            ),
    decreases enemies.len() - from,
{
    if from < enemies.len() && !touches(at, enemies[from].position) {
        lemma_first_touched(enemies, at, from + 1);
    }
}

/// Every kill is rewarded once: the score grows by `KILL_SCORE` and the
/// money by `KILL_MONEY` for each enemy that the bullets remove, and by
/// nothing else. Each bullet is spent or stays, and no enemy appears.
pub proof fn lemma_resolve_rewards(battle: Battle, bullets: Seq<Entity<Bullet>>)
    ensures
        resolve(battle, bullets).enemies.len() <= battle.enemies.len(),
        battle.enemies.len() - resolve(battle, bullets).enemies.len() <= bullets.len(),
        resolve(battle, bullets).score == battle.score + KILL_SCORE * (battle.enemies.len()
            - resolve(battle, bullets).enemies.len()),
        resolve(battle, bullets).money == battle.money + KILL_MONEY * (battle.enemies.len()
            - resolve(battle, bullets).enemies.len()),
        battle.bullets.len() <= resolve(battle, bullets).bullets.len() <= battle.bullets.len()
            + bullets.len(),
    decreases bullets.len(),
{
    if bullets.len() > 0 {
        lemma_resolve_rewards(battle, bullets.drop_last());
        let before = resolve(battle, bullets.drop_last());
        lemma_first_touched(before.enemies, bullets.last().position, 0);
    }
}

/// What holds of all enemies, and still holds of an enemy that has lost hit
/// points, holds of all enemies after the hits; what holds of all bullets
/// holds of those that stay.
pub proof fn lemma_resolve_all(
    battle: Battle,
    bullets: Seq<Entity<Bullet>>,
    enemy_ok: spec_fn(Entity<Enemy>) -> bool,
    bullet_ok: spec_fn(Entity<Bullet>) -> bool,
)
    requires
        battle.enemies.all(enemy_ok),
        battle.bullets.all(bullet_ok),
        bullets.all(bullet_ok),
        forall|e: Entity<Enemy>, health: i32|
            enemy_ok(e) && health <= e.component.health ==> enemy_ok(#[trigger] wounded(e, health)),
    ensures
        resolve(battle, bullets).enemies.all(enemy_ok),
        resolve(battle, bullets).bullets.all(bullet_ok),
    decreases bullets.len(),
{
    if bullets.len() > 0 {
        let rest = bullets.drop_last();
        let x = bullets.last();
        assert forall|i: int| 0 <= i < rest.len() implies #[trigger] bullet_ok(rest[i]) by {
            assert(rest[i] == bullets[i]);
        }
        lemma_resolve_all(battle, rest, enemy_ok, bullet_ok);
        let before = resolve(battle, rest);
        lemma_first_touched(before.enemies, x.position, 0);
        let j = first_touched(before.enemies, x.position, 0);
        assert(bullet_ok(x));
        if j < before.enemies.len() {
            let target = before.enemies[j];
            assert(enemy_ok(target));
            let health = target.component.health - x.component.damage;
            if health > 0 {
                assert(enemy_ok(wounded(target, health as i32)));
            }
        }
    }
}

/// The hits keep the order of the enemies and of the bullets that stay.
pub proof fn lemma_resolve_ordered(
    battle: Battle,
    bullets: Seq<Entity<Bullet>>,
    enemy_bound: int,
    bullet_bound: int,
)
    requires
        ordered_below(battle.enemies, enemy_bound),
        ordered_below(battle.bullets + bullets, bullet_bound),
    ensures
        ordered_below(resolve(battle, bullets).enemies, enemy_bound),
        ordered_below(resolve(battle, bullets).bullets, bullet_bound),
    decreases bullets.len(),
{
    let all = battle.bullets + bullets;
    if bullets.len() == 0 {
        assert(all == battle.bullets);
    } else {
        let x = bullets.last();
        let rest = battle.bullets + bullets.drop_last();
        assert(all.last() == x);
        assert forall|i: int| 0 <= i < rest.len() implies (#[trigger] rest[i]).id < x.id by {
            assert(rest[i] == all[i]);
        }
        assert forall|i: int, j: int| 0 <= i < j < rest.len() implies (#[trigger] rest[i]).id < (
        #[trigger] rest[j]).id by {
            assert(rest[i] == all[i]);
            assert(rest[j] == all[j]);
        }
        lemma_resolve_ordered(battle, bullets.drop_last(), enemy_bound, x.id as int);
        let before = resolve(battle, bullets.drop_last());
        lemma_first_touched(before.enemies, x.position, 0);
        assert(x.id < bullet_bound) by {
            assert(all[all.len() - 1] == x);
        }
    }
}

/// The first enemy that a bullet at `at` hits, or the number of enemies.
fn find_touched(enemies: &Vec<Entity<Enemy>>, at: Vec2) -> (j: usize)
    ensures
        j == first_touched(enemies@, at, 0),
        j <= enemies.len(),
{
    assert(COLLISION_RADIUS * COLLISION_RADIUS == 256_000_000);
    let reach: u128 = (COLLISION_RADIUS as u128) * (COLLISION_RADIUS as u128);
    let mut j: usize = 0;
    while j < enemies.len()
        invariant
            0 <= j <= enemies.len(),
            reach == COLLISION_RADIUS * COLLISION_RADIUS,
            first_touched(enemies@, at, j as int) == first_touched(enemies@, at, 0),
        decreases enemies.len() - j,
    {
        let d: u128 = at.distance_squared(enemies[j].position);
        if d < reach {
            return j;
        }
        j = j + 1;
    }
    j
}

/// Lets every bullet hit the first enemy that it touches, in the order of
/// the bullets: see `resolve_bullet`. Spent bullets and dead enemies are
/// removed; hits and deaths are added to the feedback; kills are rewarded.
pub fn collision_system(
    enemies: &mut Vec<Entity<Enemy>>,
    bullets: &mut Vec<Entity<Bullet>>,
    game_state: &mut GameState,
    events: &mut Vec<SoundEvent>,
)
    requires
        old(game_state).score + KILL_SCORE * old(bullets).len() <= i32::MAX,
        old(game_state).money + KILL_MONEY * old(bullets).len() <= i32::MAX,
    ensures
        ({
            let end = resolve(
                Battle {
                    enemies: old(enemies)@,
                    bullets: Seq::empty(),
                    score: old(game_state).score as int,
                    money: old(game_state).money as int,
                    events: old(events)@,
                },
                old(bullets)@,
            );
            &&& final(enemies)@ == end.enemies
            &&& final(bullets)@ == end.bullets
            &&& final(events)@ == end.events
            &&& final(game_state).score == end.score
            &&& final(game_state).money == end.money
        }),
        final(game_state).player_health == old(game_state).player_health,
        final(enemies)@.len() <= old(enemies)@.len(),
        final(game_state).score == old(game_state).score + KILL_SCORE * (old(enemies)@.len()
            - final(enemies)@.len()),
        final(game_state).money == old(game_state).money + KILL_MONEY * (old(enemies)@.len()
            - final(enemies)@.len()),
{
    let ghost start = Battle {
        enemies: enemies@,
        bullets: Seq::empty(),
        score: game_state.score as int,
        money: game_state.money as int,
        events: events@,
    };
    let ghost shots = bullets@;
    let mut kept: Vec<Entity<Bullet>> = Vec::new();
    let mut i: usize = 0;
    while i < bullets.len()
        invariant
            bullets@ == shots,
            0 <= i <= bullets.len(),
            start.score + KILL_SCORE * shots.len() <= i32::MAX,
            start.money + KILL_MONEY * shots.len() <= i32::MAX,
            game_state.player_health == old(game_state).player_health,
            resolve(start, shots.take(i as int)) == (Battle {
                enemies: enemies@,
                bullets: kept@,
                score: game_state.score as int,
                money: game_state.money as int,
                events: events@,
            }),
        decreases bullets.len() - i,
    {
        let bullet: Entity<Bullet> = bullets[i];
        proof {
            assert(shots.take(i + 1).drop_last() == shots.take(i as int));
            assert(shots.take(i + 1).last() == bullet);
            lemma_resolve_rewards(start, shots.take(i as int));
            lemma_resolve_rewards(start, shots.take(i + 1));
        }
        let j: usize = find_touched(enemies, bullet.position);
        if j < enemies.len() {
            let target: Entity<Enemy> = enemies[j];
            events.push(SoundEvent { sound_type: SoundType::Hit, position: target.position });
            let health: i64 = target.component.health as i64 - bullet.component.damage as i64;
            if health <= 0 {
                events.push(SoundEvent { sound_type: SoundType::Death, position: target.position });
                enemies.remove(j);
                game_state.score = game_state.score + KILL_SCORE;
                game_state.money = game_state.money + KILL_MONEY;
            } else {
                enemies.set(
                    j,
                    Entity {
                        id: target.id,
                        position: target.position,
                        component: Enemy {
                            health: health as i32,
                            max_health: target.component.max_health,
                            speed: target.component.speed,
                            path_progress: target.component.path_progress,
                        },
                    },
                );
            }
        } else {
            kept.push(bullet);
        }
        i = i + 1;
    }
    proof {
        assert(shots.take(shots.len() as int) == shots);
        lemma_resolve_rewards(start, shots);
    }
    *bullets = kept;
}

} // verus!
