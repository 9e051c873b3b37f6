//! Enemies: the waves that send them, their walk along the route, and the
//! sweep that removes the dead.

use vstd::prelude::*;
use crate::components::{Enemy, Entity, Spawn};
use crate::fixed::{lemma_mul_bound, SCALE};
use crate::geometry::Vec2;
use crate::path::{
    lemma_position_at_start, path_length, position_on_path, valid_path, PathTable,
};
use crate::resources::{GameState, WaveTimer};

verus! {

/// Lets `dt` milliseconds pass on the wave clock. Where a period of the
/// clock ends in them, one enemy is to enter the field at the start of the
/// route: one, however many periods the time spans.
pub fn spawn_enemies(
    wave_timer: &mut WaveTimer,
    path: &PathTable,
    dt: u32,
) -> (spawn: Option<Spawn<Enemy>>)
    ensures
        old(wave_timer).ticked(final(wave_timer), dt as int),
        spawn == if final(wave_timer).spec_just_finished() {
            Some(Spawn { position: path@[0], component: Enemy::fresh() })
        } else {
            None
        },
{
    wave_timer.tick(dt);
    if wave_timer.just_finished() {
        let start = path.position_at(0);
        proof {
            lemma_position_at_start(path@, 0);
        }
        Some(Spawn { position: start, component: Enemy::fresh() })
    } else {
        None
    }
}

/// The distance that an enemy has walked after `dt` more milliseconds.
pub open spec fn progress_after(enemy: Enemy, dt: int) -> int {
    enemy.path_progress + (enemy.speed * dt) / (SCALE as int)
}

/// What `dt` milliseconds of walking make of an enemy: nothing where it
/// reaches the end of the route, else the enemy further along the route.
pub open spec fn march(
    path: Seq<Vec2>,
    dt: int,
) -> spec_fn(Entity<Enemy>) -> Option<Entity<Enemy>> {
    |e: Entity<Enemy>|
        {
            let progress = progress_after(e.component, dt);
            if progress >= path_length(path) {
                None
            } else {
                Some(
                    Entity {
                        position: position_on_path(path, progress),
                        component: Enemy { path_progress: progress as i64, ..e.component },
                        ..e
                    },
                )
            }
        }
}

/// An enemy breaches exactly when its walk reaches the length of the route.
/// An enemy that does not is changed in nothing but its progress and its
/// position, which is the point of the route at its progress.
pub proof fn lemma_breach_at_end(path: Seq<Vec2>, enemy: Entity<Enemy>, dt: int)
    requires
        valid_path(path),
        0 <= dt,
    ensures
        march(path, dt)(enemy) is None <==> progress_after(enemy.component, dt) >= path_length(
            path,
        ),
        march(path, dt)(enemy) matches Some(walked) ==> {
            &&& walked.id == enemy.id
            &&& walked.component.path_progress == progress_after(enemy.component, dt)
            &&& walked.position == position_on_path(path, progress_after(enemy.component, dt))
            &&& walked.component.health == enemy.component.health
            &&& walked.component.max_health == enemy.component.max_health
            &&& walked.component.speed == enemy.component.speed
        },
{
    assert((enemy.component.speed * dt) / (SCALE as int) >= 0) by (nonlinear_arith)
        requires
            enemy.component.speed >= 0,
            dt >= 0,
    ;
}

/// Walks every enemy along the route for `dt` milliseconds. An enemy that
/// reaches the end of the route breaches: it is removed and costs the player
/// one life, and nothing else changes for it. The others stand where the
/// route puts them, in their old order.
pub fn move_enemies(
    enemies: &mut Vec<Entity<Enemy>>,
    path: &PathTable,
    dt: u32,
    game_state: &mut GameState,
)
    requires
        old(game_state).player_health - old(enemies).len() >= i32::MIN,
    ensures
        final(enemies)@ == old(enemies)@.filter_map(march(path@, dt as int)),
        final(game_state).player_health == old(game_state).player_health - (old(enemies)@.len()
            - final(enemies)@.len()),
        final(game_state).score == old(game_state).score,
        final(game_state).money == old(game_state).money,
        valid_path(path@),
{
    let ghost before = enemies@;
    let total: i64 = path.total_length();
    let mut kept: Vec<Entity<Enemy>> = Vec::new();
    let mut i: usize = 0;
    while i < enemies.len()
        invariant
            enemies@ == before,
            0 <= i <= enemies.len(),
            total == path_length(path@),
            kept@ == before.take(i as int).filter_map(march(path@, dt as int)),
            kept@.len() <= i,
            game_state.player_health == old(game_state).player_health - (i - kept@.len()),
            game_state.score == old(game_state).score,
            game_state.money == old(game_state).money,
            old(game_state).player_health - before.len() >= i32::MIN,
        decreases enemies.len() - i,
    {
        let e: Entity<Enemy> = enemies[i];
        proof {
            lemma_mul_bound(e.component.speed as int, dt as int, 0xFFFF_FFFF, 0xFFFF_FFFF);
            before.lemma_filter_map_take_succ(march(path@, dt as int), i as int);
        }
        let step: u64 = (e.component.speed as u64) * (dt as u64) / (SCALE as u64);
        let progress: i128 = e.component.path_progress as i128 + step as i128;
        if progress >= total as i128 {
            game_state.player_health = game_state.player_health - 1;
        } else {
            let at: i64 = progress as i64;
            kept.push(
                Entity {
                    id: e.id,
                    position: path.position_at(at),
                    component: Enemy {
                        health: e.component.health,
                        max_health: e.component.max_health,
                        speed: e.component.speed,
                        path_progress: at,
                    },
                },
            );
        }
        i = i + 1;
    }
    proof {
        assert(before.take(before.len() as int) == before);
    }
    *enemies = kept;
}

/// Whether an enemy has hit points left.
pub open spec fn alive() -> spec_fn(Entity<Enemy>) -> bool {
    |e: Entity<Enemy>| e.component.health > 0
}

/// Removes every enemy that has no hit points left, whatever took them. The
/// others keep their order.
pub fn cleanup_dead_entities(enemies: &mut Vec<Entity<Enemy>>)
    ensures
        final(enemies)@ == old(enemies)@.filter(alive()),
{
    let ghost before = enemies@;
    let mut kept: Vec<Entity<Enemy>> = Vec::new();
    let mut i: usize = 0;
    while i < enemies.len()
        invariant
            enemies@ == before,
            0 <= i <= enemies.len(),
            kept@ == before.take(i as int).filter(alive()),
        decreases enemies.len() - i,
    {
        let e: Entity<Enemy> = enemies[i];
        proof {
            assert(before.take(i + 1) == before.take(i as int).push(e));
            before.take(i as int).lemma_filter_push(e, alive());
        }
        if e.component.health > 0 {
            kept.push(e);
        }
        i = i + 1;
    }
    proof {
        assert(before.take(before.len() as int) == before);
    }
    *enemies = kept;
}

/// A second sweep removes nothing: the dead are gone after the first.
pub proof fn lemma_cleanup_idempotent(enemies: Seq<Entity<Enemy>>)
    ensures
        enemies.filter(alive()).filter(alive()) == enemies.filter(alive()),
    decreases enemies.len(),
{
    reveal(Seq::filter);
    if enemies.len() > 0 {
        lemma_cleanup_idempotent(enemies.drop_last());
        let rest = enemies.drop_last().filter(alive());
        if alive()(enemies.last()) {
            rest.lemma_filter_push(enemies.last(), alive());
        }
    }
}

} // verus!
