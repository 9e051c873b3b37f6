//! Towers: where they may be built, when they shoot, and at whom.

use vstd::prelude::*;
use crate::components::{Bullet, Enemy, Entity, Spawn, Tower, BULLET_SPEED, TOWER_FIRE_RATE};
use crate::fixed::{lemma_mul_bound, SCALE, SCALE_SQUARED};
use crate::geometry::Vec2;
use crate::resources::GameState;
use crate::sound::{SoundEvent, SoundType};

verus! {

/// What a tower costs.
pub const TOWER_COST: i32 = 20;

/// No tower is built closer than this to another.
pub const TOWER_SPACING: u32 = 60_000;

/// Why a tower was not built.
#[derive(Clone, Copy, Debug, PartialEq, Eq, Structural)]
pub enum Rejection {
    /// The player has less money than a tower costs.
    InsufficientFunds,
    /// The place is closer than `TOWER_SPACING` to a tower.
    TooClose,
}

/// What became of a request to build a tower.
#[derive(Clone, Copy, Debug, PartialEq, Eq, Structural)]
pub enum Placement {
    /// The tower to put on the field; it has been paid for.
    Placed(Tower),
    /// No tower, and nothing paid.
    Rejected(Rejection),
}

/// Whether a tower stands closer than `TOWER_SPACING` to the point `at`.
pub open spec fn crowded(towers: Seq<Entity<Tower>>, at: Vec2) -> bool {
    exists|i: int|
        0 <= i < towers.len() && #[trigger] towers[i].position.spec_distance_squared(at)
            < TOWER_SPACING * TOWER_SPACING
}

/// The answer to a request to build a tower at `position`: rejected where
/// the player cannot pay for a tower, and else where the place is too close
/// to a tower that stands; a tower as towers are built where neither holds.
pub open spec fn placement_for(
    towers: Seq<Entity<Tower>>,
    state: GameState,
    position: Vec2,
) -> Placement {
    if state.money < TOWER_COST {
        Placement::Rejected(Rejection::InsufficientFunds)
    } else if crowded(towers, position) {
        Placement::Rejected(Rejection::TooClose)
    } else {
        Placement::Placed(Tower::fresh())
    }
}

/// The economy after a request to build a tower: the price is taken for a
/// tower that is built, and nothing for one that is not.
pub open spec fn state_after(state: GameState, placement: Placement) -> GameState {
    if placement is Placed {
        GameState { money: (state.money - TOWER_COST) as i32, ..state }
    } else {
        state
    }
}

/// Answers a request to build a tower at `position`: see `placement_for`.
/// The price of a tower that is to be built is taken at once.
pub fn handle_input(
    towers: &Vec<Entity<Tower>>,
    game_state: &mut GameState,
    position: Vec2,
) -> (placement: Placement)
    ensures
        placement == placement_for(towers@, *old(game_state), position),
        *final(game_state) == state_after(*old(game_state), placement),
{
    if game_state.money < TOWER_COST {
        return Placement::Rejected(Rejection::InsufficientFunds);
    }
    assert(TOWER_SPACING * TOWER_SPACING == 3_600_000_000);
    let spacing: u128 = (TOWER_SPACING as u128) * (TOWER_SPACING as u128);
    let mut i: usize = 0;
    while i < towers.len()
        invariant
            0 <= i <= towers.len(),
            spacing == TOWER_SPACING * TOWER_SPACING,
            *game_state == *old(game_state),
            game_state.money >= TOWER_COST,
            forall|k: int|
                0 <= k < i ==> #[trigger] towers@[k].position.spec_distance_squared(position)
                    >= TOWER_SPACING * TOWER_SPACING,
        decreases towers.len() - i,
    {
        let d: u128 = towers[i].position.distance_squared(position);
        if d < spacing {
            assert(towers@[i as int].position.spec_distance_squared(position) < TOWER_SPACING
                * TOWER_SPACING);
            return Placement::Rejected(Rejection::TooClose);
        }
        i = i + 1;
    }
    game_state.money = game_state.money - TOWER_COST;
    Placement::Placed(Tower::fresh())
}

/// The squared distance from the point `from` to enemy `k`.
pub open spec fn gap(from: Vec2, enemies: Seq<Entity<Enemy>>, k: int) -> int {
    from.spec_distance_squared(enemies[k].position)
}

/// Enemy `j` is the one to shoot at from the point `from` with the given
/// range: it is in range, no enemy is nearer, and of those as near as it is
/// it comes first.
pub open spec fn is_target(from: Vec2, range: int, enemies: Seq<Entity<Enemy>>, j: int) -> bool {
    &&& 0 <= j < enemies.len()
    &&& gap(from, enemies, j) <= range * range
    &&& forall|k: int|
        0 <= k < enemies.len() ==> gap(from, enemies, j) <= #[trigger] gap(from, enemies, k)
    &&& forall|k: int| 0 <= k < j ==> gap(from, enemies, j) < #[trigger] gap(from, enemies, k)
}

/// The enemy to shoot at, if there is one.
pub open spec fn target(from: Vec2, range: int, enemies: Seq<Entity<Enemy>>) -> Option<int> {
    if exists|j: int| is_target(from, range, enemies, j) {
        Some(choose|j: int| is_target(from, range, enemies, j))
    } else {
        None
    }
}

/// There is at most one enemy to shoot at.
pub proof fn lemma_target_unique(
    from: Vec2,
    range: int,
    enemies: Seq<Entity<Enemy>>,
    j1: int,
    j2: int,
)
    requires
        is_target(from, range, enemies, j1),
        is_target(from, range, enemies, j2),
    ensures
        j1 == j2,
{
    assert(gap(from, enemies, j1) <= gap(from, enemies, j2));
    assert(gap(from, enemies, j2) <= gap(from, enemies, j1));
}

/// Among the first `n` enemies one is nearest, and first of those as near.
pub proof fn lemma_nearest_exists(from: Vec2, enemies: Seq<Entity<Enemy>>, n: int) -> (j: int)
    requires
        0 < n <= enemies.len(),
    ensures
        0 <= j < n,
        forall|k: int| 0 <= k < n ==> gap(from, enemies, j) <= #[trigger] gap(from, enemies, k),
        forall|k: int| 0 <= k < j ==> gap(from, enemies, j) < #[trigger] gap(from, enemies, k),
    decreases n,
{
    if n == 1 {
        0
    } else {
        let best = lemma_nearest_exists(from, enemies, n - 1);
        if gap(from, enemies, n - 1) < gap(from, enemies, best) {
            n - 1
        } else {
            best
        }
    }
}

/// A tower has a target exactly if an enemy stands in its range.
pub proof fn lemma_target_in_range(from: Vec2, range: int, enemies: Seq<Entity<Enemy>>)
    ensures
        target(from, range, enemies) is Some <==> exists|k: int|
            0 <= k < enemies.len() && #[trigger] gap(from, enemies, k) <= range * range,
        target(from, range, enemies) matches Some(j) ==> is_target(from, range, enemies, j),
{
    if exists|k: int| 0 <= k < enemies.len() && #[trigger] gap(from, enemies, k) <= range * range {
        let k = choose|k: int|
            0 <= k < enemies.len() && #[trigger] gap(from, enemies, k) <= range * range;
        let j = lemma_nearest_exists(from, enemies, enemies.len() as int);
        assert(gap(from, enemies, j) <= gap(from, enemies, k));
        assert(is_target(from, range, enemies, j));
    }
    if target(from, range, enemies) is Some {
        let j = target(from, range, enemies)->0;
        assert(is_target(from, range, enemies, j));
        assert(gap(from, enemies, j) <= range * range);
    }
}

/// The enemy to shoot at from `from` with the given range, if there is one.
pub fn find_target(from: Vec2, range: u32, enemies: &Vec<Entity<Enemy>>) -> (found: Option<usize>)
    ensures
        found is Some <==> target(from, range as int, enemies@) is Some,
        found matches Some(j) ==> target(from, range as int, enemies@) == Some(j as int)
            && is_target(from, range as int, enemies@, j as int),
{
    proof {
        lemma_mul_bound(range as int, range as int, 0xFFFF_FFFF, 0xFFFF_FFFF);
    }
    let reach: u128 = (range as u128) * (range as u128);
    let mut closest: Option<usize> = None;
    let mut closest_distance: u128 = 0;
    let mut i: usize = 0;
    while i < enemies.len()
        invariant
            0 <= i <= enemies.len(),
            reach == range * range,
            closest is None ==> forall|k: int|
                0 <= k < i ==> #[trigger] gap(from, enemies@, k) > reach,
            closest matches Some(b) ==> {
                &&& b < i
                &&& closest_distance == gap(from, enemies@, b as int)
                &&& closest_distance <= reach
                &&& forall|k: int|
                    0 <= k < i ==> closest_distance <= #[trigger] gap(from, enemies@, k)
                &&& forall|k: int|
                    0 <= k < b ==> closest_distance < #[trigger] gap(from, enemies@, k)
            },
        decreases enemies.len() - i,
    {
        let d: u128 = from.distance_squared(enemies[i].position);
        assert(d == gap(from, enemies@, i as int));
        let nearer: bool = match closest {
            Some(_) => d < closest_distance,
            None => true,
        };
        if d <= reach && nearer {
            closest = Some(i);
            closest_distance = d;
        }
        i = i + 1;
    }
    proof {
        lemma_target_in_range(from, range as int, enemies@);
        match closest {
            Some(b) => {
                assert(is_target(from, range as int, enemies@, b as int));
                let j = target(from, range as int, enemies@)->0;
                lemma_target_unique(from, range as int, enemies@, b as int, j);
            },
            None => {},
        }
    }
    closest
}

/// Whether a tower that last shot `last_shot` milliseconds ago may shoot
/// again: whether its shots per second, times the seconds waited, make one
/// whole shot.
pub open spec fn cooled_down(last_shot: int, fire_rate: int) -> bool {
    last_shot * fire_rate >= SCALE_SQUARED
}

/// One frame of a tower's cooldown, `dt` milliseconds long: the time since
/// its last shot after the frame, and whether it shoots in the frame. It
/// shoots where it has cooled down and has a target; the time then starts
/// again from zero. Where not, the time goes on, target or not.
pub open spec fn cooldown_step(
    last_shot: int,
    fire_rate: int,
    dt: int,
    has_target: bool,
) -> (int, bool) {
    let waited = last_shot + dt;
    if cooled_down(waited, fire_rate) && has_target {
        (0, true)
    } else {
        (waited, false)
    }
}

/// The time since a tower's last shot after it went through the given
/// frames: each frame is its length in milliseconds and whether the tower
/// has a target in it.
pub open spec fn cooldown_after(last_shot: int, fire_rate: int, frames: Seq<(int, bool)>) -> int
    decreases frames.len(),
{
    if frames.len() == 0 {
        last_shot
    } else {
        cooldown_step(
            cooldown_after(last_shot, fire_rate, frames.drop_last()),
            fire_rate,
            frames.last().0,
            frames.last().1,
        ).0
    }
}

/// Whether the tower shoots in frame `n` of the given frames.
pub open spec fn shoots_in(
    last_shot: int,
    fire_rate: int,
    frames: Seq<(int, bool)>,
    n: int,
) -> bool {
    cooldown_step(
        cooldown_after(last_shot, fire_rate, frames.take(n)),
        fire_rate,
        frames[n].0,
        frames[n].1,
    ).1
}

/// The milliseconds that the frames from `from` up to, not including, `to`
/// take together.
pub open spec fn duration(frames: Seq<(int, bool)>, from: int, to: int) -> int
    decreases to - from,
{
    if to <= from {
        0
    } else {
        duration(frames, from, to - 1) + frames[to - 1].0
    }
}

/// After a shot in frame `m`, the time since the last shot is never more
/// than the frames since then took.
proof fn lemma_cooldown_bounded(
    last_shot: int,
    fire_rate: int,
    frames: Seq<(int, bool)>,
    m: int,
    k: int,
)
    requires
        forall|i: int| 0 <= i < frames.len() ==> (#[trigger] frames[i]).0 >= 0,
        0 <= m < k <= frames.len(),
        shoots_in(last_shot, fire_rate, frames, m),
    ensures
        0 <= cooldown_after(last_shot, fire_rate, frames.take(k)) <= duration(frames, m + 1, k),
    decreases k,
{
    assert(frames.take(k).drop_last() == frames.take(k - 1));
    assert(frames.take(k).last() == frames[k - 1]);
    if k > m + 1 {
        lemma_cooldown_bounded(last_shot, fire_rate, frames, m, k - 1);
    }
}

/// Between two shots of a tower lies at least its cooldown, however the time
/// is cut into frames: where a tower shoots in frame `m` and again in frame
/// `n`, the frames after `m` up to and including `n` take long enough for
/// one whole shot at its fire rate. At one shot per second that is a second.
pub proof fn lemma_cooldown_between_shots(
    last_shot: int,
    fire_rate: int,
    frames: Seq<(int, bool)>,
    m: int,
    n: int,
)
    requires
        0 <= fire_rate,
        forall|i: int| 0 <= i < frames.len() ==> (#[trigger] frames[i]).0 >= 0,
        0 <= m < n < frames.len(),
        shoots_in(last_shot, fire_rate, frames, m),
        shoots_in(last_shot, fire_rate, frames, n),
    ensures
        duration(frames, m + 1, n + 1) * fire_rate >= SCALE_SQUARED,
{
    lemma_cooldown_bounded(last_shot, fire_rate, frames, m, n);
    let waited = cooldown_after(last_shot, fire_rate, frames.take(n)) + frames[n].0;
    let total = duration(frames, m + 1, n + 1);
    assert(waited <= total);
    assert(waited * fire_rate <= total * fire_rate) by (nonlinear_arith)
        requires
            waited <= total,
            0 <= fire_rate,
    ;
}

/// A tower as towers are built shoots once a second at most: between two of
/// its shots lie a thousand milliseconds or more.
pub proof fn lemma_one_shot_a_second(last_shot: int, frames: Seq<(int, bool)>, m: int, n: int)
    requires
        forall|i: int| 0 <= i < frames.len() ==> (#[trigger] frames[i]).0 >= 0,
        0 <= m < n < frames.len(),
        shoots_in(last_shot, TOWER_FIRE_RATE as int, frames, m),
        shoots_in(last_shot, TOWER_FIRE_RATE as int, frames, n),
    ensures
        duration(frames, m + 1, n + 1) >= 1000,
{
    lemma_cooldown_between_shots(last_shot, TOWER_FIRE_RATE as int, frames, m, n);
}

/// The cooldown step of a tower among the given enemies.
pub open spec fn tower_step(
    tower: Entity<Tower>,
    enemies: Seq<Entity<Enemy>>,
    dt: int,
) -> (int, bool) {
    cooldown_step(
        tower.component.last_shot as int,
        tower.component.fire_rate as int,
        dt,
        target(tower.position, tower.component.range as int, enemies) is Some,
    )
}

/// A tower after a frame of `dt` milliseconds among the given enemies.
pub open spec fn after_frame(
    enemies: Seq<Entity<Enemy>>,
    dt: int,
) -> spec_fn(Entity<Tower>) -> Entity<Tower> {
    |t: Entity<Tower>|
        Entity {
            component: Tower { last_shot: tower_step(t, enemies, dt).0 as u64, ..t.component },
            ..t
        }
}

/// The bullet that a tower shoots in a frame of `dt` milliseconds among the
/// given enemies, if it shoots: from where the tower stands, toward its
/// target, with the tower's damage.
pub open spec fn shot(
    enemies: Seq<Entity<Enemy>>,
    dt: int,
) -> spec_fn(Entity<Tower>) -> Option<Spawn<Bullet>> {
    |t: Entity<Tower>|
        if tower_step(t, enemies, dt).1 {
            let j = target(t.position, t.component.range as int, enemies)->0;
            Some(
                Spawn {
                    position: t.position,
                    component: Bullet {
                        damage: t.component.damage,
                        speed: BULLET_SPEED,
                        direction: t.position.spec_direction_to(enemies[j].position),
                    },
                },
            )
        } else {
            None
        }
}

/// The feedback for a shot: a shot, where the bullet starts.
pub open spec fn shot_sound() -> spec_fn(Spawn<Bullet>) -> SoundEvent {
    |s: Spawn<Bullet>| SoundEvent { sound_type: SoundType::Shoot, position: s.position }
}

/// Lets `dt` milliseconds pass for every tower. A tower that has cooled
/// down and has an enemy in range shoots one bullet at the nearest of them
/// (the first of several equally near) and starts to cool down again; any
/// other tower goes on waiting. The bullets are handed back in the order of
/// their towers, and a shot is added to the feedback for each.
pub fn tower_shooting(
    towers: &mut Vec<Entity<Tower>>,
    enemies: &Vec<Entity<Enemy>>,
    dt: u32,
    events: &mut Vec<SoundEvent>,
) -> (shots: Vec<Spawn<Bullet>>)
    requires
        forall|i: int|
            0 <= i < old(towers).len() ==> (#[trigger] old(towers)[i]).component.last_shot + dt
                <= u64::MAX,
    ensures
        final(towers)@ == old(towers)@.map_values(after_frame(enemies@, dt as int)),
        shots@ == old(towers)@.filter_map(shot(enemies@, dt as int)),
        shots@.len() <= old(towers)@.len(),
        forall|k: int|
            0 <= k < shots@.len() ==> (#[trigger] shots@[k]).component.speed == BULLET_SPEED
                && -SCALE <= shots@[k].component.direction.x <= SCALE && -SCALE
                <= shots@[k].component.direction.y <= SCALE,
        final(events)@ == old(events)@ + shots@.map_values(shot_sound()),
{
    let ghost before = towers@;
    let ghost heard = events@;
    let mut shots: Vec<Spawn<Bullet>> = Vec::new();
    let mut i: usize = 0;
    while i < towers.len()
        invariant
            0 <= i <= towers.len(),
            towers@.len() == before.len(),
            forall|k: int|
                0 <= k < before.len() ==> (#[trigger] before[k]).component.last_shot + dt
                    <= u64::MAX,
            forall|k: int|
                0 <= k < i ==> #[trigger] towers@[k] == after_frame(enemies@, dt as int)(before[k]),
            forall|k: int| i <= k < before.len() ==> #[trigger] towers@[k] == before[k],
            shots@ == before.take(i as int).filter_map(shot(enemies@, dt as int)),
            shots@.len() <= i,
            forall|k: int|
                0 <= k < shots@.len() ==> (#[trigger] shots@[k]).component.speed == BULLET_SPEED
                    && -SCALE <= shots@[k].component.direction.x <= SCALE && -SCALE
                    <= shots@[k].component.direction.y <= SCALE,
            events@ == heard + shots@.map_values(shot_sound()),
        decreases towers.len() - i,
    {
        let t: Entity<Tower> = towers[i];
        assert(t == before[i as int]);
        proof {
            before.lemma_filter_map_take_succ(shot(enemies@, dt as int), i as int);
            lemma_mul_bound(
                t.component.last_shot + dt,
                t.component.fire_rate as int,
                0xFFFF_FFFF_FFFF_FFFF,
                0xFFFF_FFFF,
            );
        }
        let waited: u64 = t.component.last_shot + dt as u64;
        let ready: bool = (waited as u128) * (t.component.fire_rate as u128) >= SCALE_SQUARED as u128;
        let found: Option<usize> = if ready {
            find_target(t.position, t.component.range, enemies)
        } else {
            None
        };
        let last_shot: u64 = match found {
            Some(j) => {
                let s = Spawn {
                    position: t.position,
                    component: Bullet {
                        damage: t.component.damage,
                        speed: BULLET_SPEED,
                        direction: t.position.direction_to(enemies[j].position),
                    },
                };
                proof {
                    assert((heard + shots@.map_values(shot_sound())).push(shot_sound()(s)) == heard
                        + shots@.push(s).map_values(shot_sound()));
                }
                events.push(SoundEvent { sound_type: SoundType::Shoot, position: t.position });
                shots.push(s);
                0
            },
            None => waited,
        };
        towers.set(
            i,
            Entity {
                id: t.id,
                position: t.position,
                component: Tower {
                    damage: t.component.damage,
                    range: t.component.range,
                    fire_rate: t.component.fire_rate,
                    last_shot,
                },
            },
        );
        i = i + 1;
    }
    proof {
        assert(before.take(before.len() as int) == before);
        assert(towers@ =~= before.map_values(after_frame(enemies@, dt as int)));
    }
    shots
}

} // verus!
