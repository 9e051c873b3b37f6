//! The play field as a whole, and the frame that moves it on.
//!
//! A frame runs the passes in a fixed order: the wave clock, the walk of the
//! enemies, the towers, the flight of the bullets, the hits, and the sweep
//! of the dead. What a pass removes is gone for the passes after it. What a
//! pass creates enters the field only when the frame is over, so that no
//! pass of the frame sees it.

use vstd::prelude::*;
use crate::components::{
    keeps_id, lemma_filter_all, lemma_filter_map_all, lemma_filter_map_ordered,
    lemma_filter_ordered, ordered_below, Bullet, Enemy, Entity, Spawn, Tower, BULLET_SPEED,
};
use crate::fixed::SCALE;
use crate::geometry::Vec2;
use crate::path::{enemy_path, enemy_waypoints, lemma_path_positive, path_length, PathTable};
use crate::resources::{GameState, WaveTimer, STARTING_HEALTH, STARTING_MONEY, WAVE_PERIOD};
use crate::sound::SoundEvent;
use crate::systems::combat::{
    bullet_movement, collision_system, fly, lemma_resolve_all, lemma_resolve_ordered, resolve,
    Battle, KILL_MONEY, KILL_SCORE,
};
use crate::systems::enemy::{alive, cleanup_dead_entities, march, move_enemies, spawn_enemies};
use crate::systems::tower::{
    after_frame, handle_input, placement_for, shot, shot_sound, state_after, tower_shooting,
    Placement,
};

verus! {

/// The play field: the route, the economy, the wave clock, and all that
/// stands and moves on the field.
pub struct World {
    pub path: PathTable,
    pub game_state: GameState,
    pub wave_timer: WaveTimer,
    pub enemies: Vec<Entity<Enemy>>,
    pub towers: Vec<Entity<Tower>>,
    pub bullets: Vec<Entity<Bullet>>,
    /// The identifier that the next entity gets.
    pub next_id: u64,
}

/// The entities that the given requests make, with identifiers from `first`
/// on, in the order of the requests.
pub open spec fn with_ids<C>(spawns: Seq<Spawn<C>>, first: int) -> Seq<Entity<C>> {
    Seq::new(
        spawns.len(),
        |k: int|
            Entity {
                id: (first + k) as u64,
                position: spawns[k].position,
                component: spawns[k].component,
            },
    )
}

/// Whether an enemy is on a route of length `total` before its end, with no
/// more hit points than it came with.
pub open spec fn on_route(total: int) -> spec_fn(Entity<Enemy>) -> bool {
    |e: Entity<Enemy>|
        0 <= e.component.path_progress < total && e.component.health <= e.component.max_health
}

/// Whether a tower can shoot at all.
pub open spec fn armed() -> spec_fn(Entity<Tower>) -> bool {
    |t: Entity<Tower>| t.component.fire_rate > 0
}

/// Whether a bullet flies at the speed of bullets, along a direction no
/// longer than one unit.
pub open spec fn well_shot() -> spec_fn(Entity<Bullet>) -> bool {
    |b: Entity<Bullet>|
        b.component.speed == BULLET_SPEED && -SCALE <= b.component.direction.x <= SCALE && -SCALE
            <= b.component.direction.y <= SCALE
}

impl World {
    /// The enemies after their walk of `dt` milliseconds.
    pub open spec fn marched(&self, dt: int) -> Seq<Entity<Enemy>> {
        self.enemies@.filter_map(march(self.path@, dt))
    }

    /// The enemy that enters the field in a frame of `dt` milliseconds, if
    /// the wave clock sends one.
    pub open spec fn wave(&self, dt: int) -> Seq<Spawn<Enemy>> {
        if self.wave_timer.spec_elapsed() + dt >= self.wave_timer.spec_duration() {
            seq![Spawn { position: self.path@[0], component: Enemy::fresh() }]
        } else {
            Seq::empty()
        }
    }

    /// The bullets that the towers shoot in a frame of `dt` milliseconds, at
    /// the enemies where their walk has taken them.
    pub open spec fn volley(&self, dt: int) -> Seq<Spawn<Bullet>> {
        self.towers@.filter_map(shot(self.marched(dt), dt))
    }

    /// How the fight of a frame of `dt` milliseconds ends: the bullets that
    /// were in flight before the frame, moved on, against the enemies where
    /// their walk has taken them. The feedback starts with the shots of the
    /// frame.
    pub open spec fn fight(&self, dt: int) -> Battle {
        resolve(
            Battle {
                enemies: self.marched(dt),
                bullets: Seq::empty(),
                score: self.game_state.score as int,
                money: self.game_state.money as int,
                events: self.volley(dt).map_values(shot_sound()),
            },
            self.bullets@.filter_map(fly(dt)),
        )
    }

    /// Whether a frame of `dt` milliseconds stays within what the counters
    /// of the field can hold: the time since each tower's last shot, the
    /// lives if every enemy breaches, score and money if every bullet kills,
    /// and the identifiers for all that the frame can create.
    pub open spec fn can_step(&self, dt: int) -> bool {
        &&& forall|i: int|
            0 <= i < self.towers@.len() ==> (#[trigger] self.towers@[i]).component.last_shot + dt
                <= u64::MAX
        &&& self.game_state.player_health - self.enemies@.len() >= i32::MIN
        &&& self.game_state.score + KILL_SCORE * self.bullets@.len() <= i32::MAX
        &&& self.game_state.money + KILL_MONEY * self.bullets@.len() <= i32::MAX
        &&& self.next_id + 1 + self.towers@.len() <= u64::MAX
    }

    /// The field is in order. The entities of each kind stand in the order
    /// of their identifiers, and the next identifier is above them all. The
    /// player owes no money. Every enemy is alive, on the route before its
    /// end, and has no more hit points than it came with. Every tower can
    /// shoot. Every bullet flies at the speed of bullets, along a direction
    /// no longer than one unit.
    pub open spec fn wf(&self) -> bool {
        &&& ordered_below(self.enemies@, self.next_id as int)
        &&& ordered_below(self.towers@, self.next_id as int)
        &&& ordered_below(self.bullets@, self.next_id as int)
        &&& self.game_state.money >= 0
        &&& self.enemies@.all(alive())
        &&& self.enemies@.all(on_route(path_length(self.path@)))
        &&& self.towers@.all(armed())
        &&& self.bullets@.all(well_shot())
    }

    /// `after` is this field one frame of `dt` milliseconds later, and
    /// `events` is the feedback of that frame.
    ///
    /// The wave clock has gone on. The towers have cooled down or shot at
    /// the enemies where their walk has taken them. The enemies are those
    /// that the fight and the sweep of the dead have left, and behind them
    /// the one that the wave clock sent. The bullets are those that flew on
    /// and hit nothing, and behind them those that the towers shot. The
    /// lives went down by the enemies that reached the end of the route;
    /// score and money went up by the kills.
    pub open spec fn stepped(&self, after: &World, dt: int, events: Seq<SoundEvent>) -> bool {
        &&& after.path@ == self.path@
        &&& self.wave_timer.ticked(&after.wave_timer, dt)
        &&& after.towers@ == self.towers@.map_values(after_frame(self.marched(dt), dt))
        &&& after.enemies@ == self.fight(dt).enemies.filter(alive()) + with_ids(
            self.wave(dt),
            self.next_id as int,
        )
        &&& after.bullets@ == self.fight(dt).bullets + with_ids(
            self.volley(dt),
            self.next_id + self.wave(dt).len(),
        )
        &&& after.game_state.player_health == self.game_state.player_health - (self.enemies@.len()
            - self.marched(dt).len())
        &&& after.game_state.score == self.fight(dt).score
        &&& after.game_state.money == self.fight(dt).money
        &&& after.next_id == self.next_id + self.wave(dt).len() + self.volley(dt).len()
        &&& events == self.fight(dt).events
    }

    /// The field at the start of a game: the route of `ENEMY_PATH`, the
    /// starting economy, the wave clock at zero, and nothing on the field.
    pub fn new() -> (world: World)
        ensures
            world.path@ == enemy_waypoints(),
            world.game_state == (GameState {
                player_health: STARTING_HEALTH,
                score: 0,
                money: STARTING_MONEY,
            }),
            world.wave_timer.spec_duration() == WAVE_PERIOD,
            world.wave_timer.spec_elapsed() == 0,
            !world.wave_timer.spec_just_finished(),
            world.enemies@.len() == 0,
            world.towers@.len() == 0,
            world.bullets@.len() == 0,
            world.next_id == 0,
            world.wf(),
    {
        World {
            path: enemy_path(),
            game_state: GameState::default(),
            wave_timer: WaveTimer::default(),
            enemies: Vec::new(),
            towers: Vec::new(),
            bullets: Vec::new(),
            next_id: 0,
        }
    }

    /// Answers a request to build a tower at `position`: see `handle_input`.
    /// A tower that is built stands on the field at once, under the next
    /// identifier.
    pub fn try_place_tower(&mut self, position: Vec2) -> (placement: Placement)
        requires
            old(self).next_id < u64::MAX,
        ensures
            placement == placement_for(old(self).towers@, old(self).game_state, position),
            final(self).game_state == state_after(old(self).game_state, placement),
            final(self).towers@ == match placement {
                Placement::Placed(tower) => old(self).towers@.push(
                    Entity { id: old(self).next_id, position, component: tower },
                ),
                Placement::Rejected(_) => old(self).towers@,
            },
            final(self).next_id == if placement is Placed {
                old(self).next_id + 1
            } else {
                old(self).next_id as int
            },
            final(self).path@ == old(self).path@,
            final(self).wave_timer == old(self).wave_timer,
            final(self).enemies@ == old(self).enemies@,
            final(self).bullets@ == old(self).bullets@,
            old(self).wf() ==> final(self).wf(),
    {
        let placement = handle_input(&self.towers, &mut self.game_state, position);
        match placement {
            Placement::Placed(tower) => {
                self.towers.push(Entity { id: self.next_id, position, component: tower });
                self.next_id = self.next_id + 1;
            },
            Placement::Rejected(_) => {},
        }
        placement
    }

    /// Runs one frame of `dt` milliseconds and hands back its feedback: the
    /// shots, then the hits and deaths in the order of the bullets.
    pub fn step(&mut self, dt: u32) -> (events: Vec<SoundEvent>)
        requires
            old(self).can_step(dt as int),
        ensures
            old(self).stepped(final(self), dt as int, events@),
            old(self).wf() ==> final(self).wf(),
    {
        let ghost first = self.next_id as int;
        let ghost walked = self.marched(dt as int);
        let spawn = spawn_enemies(&mut self.wave_timer, &self.path, dt);
        move_enemies(&mut self.enemies, &self.path, dt, &mut self.game_state);
        let mut events: Vec<SoundEvent> = Vec::new();
        let shots = tower_shooting(&mut self.towers, &self.enemies, dt, &mut events);
        assert(events@ == shots@.map_values(shot_sound()));
        bullet_movement(&mut self.bullets, dt);
        let ghost flown = self.bullets@;
        collision_system(&mut self.enemies, &mut self.bullets, &mut self.game_state, &mut events);
        let ghost fought = self.enemies@;
        cleanup_dead_entities(&mut self.enemies);
        let mut wave: Vec<Spawn<Enemy>> = Vec::new();
        match spawn {
            Some(s) => {
                wave.push(s);
            },
            None => {},
        }
        assert(wave@ == old(self).wave(dt as int));
        proof {
            if old(self).wf() {
                let total = path_length(self.path@);
                lemma_path_positive(self.path@);
                assert forall|e: Entity<Enemy>|
                    on_route(total)(e) && (#[trigger] march(self.path@, dt as int)(e))
                        is Some implies on_route(total)(march(self.path@, dt as int)(e)->0) by {
                    assert((e.component.speed * dt) / (SCALE as int) >= 0) by (nonlinear_arith)
                        requires
                            e.component.speed >= 0,
                            dt >= 0,
                    ;
                }
                lemma_filter_map_all(
                    old(self).enemies@,
                    march(self.path@, dt as int),
                    on_route(total),
                    on_route(total),
                );
                lemma_filter_map_all(old(self).bullets@, fly(dt as int), well_shot(), well_shot());
                lemma_resolve_all(
                    Battle {
                        enemies: walked,
                        bullets: Seq::empty(),
                        score: old(self).game_state.score as int,
                        money: old(self).game_state.money as int,
                        events: shots@.map_values(shot_sound()),
                    },
                    flown,
                    on_route(total),
                    well_shot(),
                );
                lemma_filter_all(fought, alive(), on_route(total));
                assert forall|i: int| 0 <= i < self.towers@.len() implies #[trigger] armed()(
                    self.towers@[i],
                ) by {
                    assert(armed()(old(self).towers@[i]));
                }
                assert(keeps_id(march(self.path@, dt as int)));
                lemma_filter_map_ordered(old(self).enemies@, march(self.path@, dt as int), first);
                assert(keeps_id(fly(dt as int)));
                lemma_filter_map_ordered(old(self).bullets@, fly(dt as int), first);
                assert(Seq::<Entity<Bullet>>::empty() + flown == flown);
                lemma_resolve_ordered(
                    Battle {
                        enemies: walked,
                        bullets: Seq::empty(),
                        score: old(self).game_state.score as int,
                        money: old(self).game_state.money as int,
                        events: shots@.map_values(shot_sound()),
                    },
                    flown,
                    first,
                    first,
                );
                lemma_filter_ordered(fought, alive(), first);
            }
        }
        put_on_field(&mut self.enemies, &wave, &mut self.next_id);
        put_on_field(&mut self.bullets, &shots, &mut self.next_id);
        events
    }

    /// Whether a frame of `dt` milliseconds stays within what the counters
    /// of the field can hold.
    pub fn check_step(&self, dt: u32) -> (ok: bool)
        ensures
            ok == self.can_step(dt as int),
    {
        let mut i: usize = 0;
        while i < self.towers.len()
            invariant
                0 <= i <= self.towers.len(),
                forall|k: int|
                    0 <= k < i ==> (#[trigger] self.towers@[k]).component.last_shot + dt
                        <= u64::MAX,
            decreases self.towers.len() - i,
        {
            if self.towers[i].component.last_shot > u64::MAX - dt as u64 {
                return false;
            }
            i = i + 1;
        }
        let lives: i128 = self.game_state.player_health as i128 - self.enemies.len() as i128;
        let score: i128 = self.game_state.score as i128 + (KILL_SCORE as i128) * (
        self.bullets.len() as i128);
        let money: i128 = self.game_state.money as i128 + (KILL_MONEY as i128) * (
        self.bullets.len() as i128);
        let ids: u128 = self.next_id as u128 + 1 + self.towers.len() as u128;
        lives >= i32::MIN as i128 && score <= i32::MAX as i128 && money <= i32::MAX as i128 && ids
            <= u64::MAX as u128
    }

    /// Runs one frame of `dt` milliseconds where the counters of the field
    /// can hold it, and hands back its feedback; does nothing where not.
    pub fn try_step(&mut self, dt: u32) -> (events: Option<Vec<SoundEvent>>)
        ensures
            events is Some <==> old(self).can_step(dt as int),
            events matches Some(e) ==> old(self).stepped(final(self), dt as int, e@),
            events is None ==> *final(self) == *old(self),
            old(self).wf() ==> final(self).wf(),
    {
        if self.check_step(dt) {
            Some(self.step(dt))
        } else {
            None
        }
    }
}

/// Entities put behind those on the field, under the identifiers from the
/// bound of those on, are in order again.
pub proof fn lemma_with_ids_ordered<C>(there: Seq<Entity<C>>, spawns: Seq<Spawn<C>>, first: int)
    requires
        ordered_below(there, first),
        0 <= first,
        first + spawns.len() <= u64::MAX + 1,
    ensures
        ordered_below(there + with_ids(spawns, first), first + spawns.len()),
{
}

/// Puts the requested entities on the field, behind those that are there,
/// under the identifiers from `next_id` on.
pub fn put_on_field<C: Copy>(
    entities: &mut Vec<Entity<C>>,
    spawns: &Vec<Spawn<C>>,
    next_id: &mut u64,
)
    requires
        *old(next_id) + spawns.len() <= u64::MAX,
    ensures
        final(entities)@ == old(entities)@ + with_ids(spawns@, *old(next_id) as int),
        *final(next_id) == *old(next_id) + spawns.len(),
        ordered_below(old(entities)@, *old(next_id) as int) ==> ordered_below(
            final(entities)@,
            *final(next_id) as int,
        ),
{
    let ghost there = entities@;
    let ghost first = *next_id;
    let mut k: usize = 0;
    while k < spawns.len()
        invariant
            0 <= k <= spawns.len(),
            first + spawns.len() <= u64::MAX,
            *next_id == first + k,
            entities@ == there + with_ids(spawns@.take(k as int), first as int),
        decreases spawns.len() - k,
    {
        let s: Spawn<C> = spawns[k];
        entities.push(Entity { id: *next_id, position: s.position, component: s.component });
        *next_id = *next_id + 1;
        k = k + 1;
    }
    proof {
        assert(spawns@.take(spawns@.len() as int) == spawns@);
        if ordered_below(there, first as int) {
            lemma_with_ids_ordered(there, spawns@, first as int);
        }
    }
}

} // verus!
