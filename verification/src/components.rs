//! What the entities of the play field are made of.
//!
//! All quantities are fixed-point: hit points, damage, distances and speeds
//! count thousandths, times count milliseconds.

use vstd::prelude::*;
use crate::geometry::Vec2;

verus! {

/// Hit points of an enemy when it enters the field.
pub const ENEMY_HEALTH: i32 = 100_000;

/// Speed of an enemy along the route, per second.
pub const ENEMY_SPEED: u32 = 50_000;

/// Damage of one shot of a tower.
pub const TOWER_DAMAGE: u32 = 25_000;

/// How far a tower reaches.
pub const TOWER_RANGE: u32 = 100_000;

/// Shots of a tower per second.
pub const TOWER_FIRE_RATE: u32 = 1000;

/// Speed of a bullet, per second.
pub const BULLET_SPEED: u32 = 300_000;

/// An enemy that walks the route.
#[derive(Clone, Copy, Debug, PartialEq, Eq, Structural)]
pub struct Enemy {
    /// Hit points left; the enemy is dead at zero or below.
    pub health: i32,
    /// Hit points it entered the field with.
    pub max_health: i32,
    /// Distance walked per second.
    pub speed: u32,
    /// Distance walked along the route so far.
    pub path_progress: i64,
}

/// A tower that shoots at enemies in its range.
#[derive(Clone, Copy, Debug, PartialEq, Eq, Structural)]
pub struct Tower {
    /// Damage that each of its bullets carries.
    pub damage: u32,
    /// Largest distance at which it sees an enemy.
    pub range: u32,
    /// Shots per second.
    pub fire_rate: u32,
    /// Milliseconds since it last shot.
    pub last_shot: u64,
}

/// A bullet in flight.
#[derive(Clone, Copy, Debug, PartialEq, Eq, Structural)]
pub struct Bullet {
    /// Damage it does to the enemy it hits: that of its tower when it was shot.
    pub damage: u32,
    /// Distance flown per second.
    pub speed: u32,
    /// Unit vector of its flight.
    pub direction: Vec2,
}

/// Something on the play field: a component at a position, under an
/// identifier that no other entity of its kind has.
#[derive(Debug, PartialEq, Eq)]
pub struct Entity<C> {
    pub id: u64,
    pub position: Vec2,
    pub component: C,
}

impl<C: Copy> Clone for Entity<C> {
    fn clone(&self) -> (copy: Self)
        ensures
            copy == *self,
    {
        *self
    }
}

impl<C: Copy> Copy for Entity<C> {

}

/// An entity to be: what a pass asks to be put on the field once the frame
/// is over.
#[derive(Debug, PartialEq, Eq)]
pub struct Spawn<C> {
    pub position: Vec2,
    pub component: C,
}

impl<C: Copy> Clone for Spawn<C> {
    fn clone(&self) -> (copy: Self)
        ensures
            copy == *self,
    {
        *self
    }
}

impl<C: Copy> Copy for Spawn<C> {

}

/// The entities stand in the order of their identifiers, and every
/// identifier is below `bound`: no two entities have the same one, and none
/// has one that is still to be given out.
pub open spec fn ordered_below<C>(entities: Seq<Entity<C>>, bound: int) -> bool {
    &&& forall|i: int| 0 <= i < entities.len() ==> (#[trigger] entities[i]).id < bound
    &&& forall|i: int, j: int|
        0 <= i < j < entities.len() ==> (#[trigger] entities[i]).id < (#[trigger] entities[j]).id
}

/// Whatever `f` makes of an entity has the identifier of that entity.
pub open spec fn keeps_id<C>(f: spec_fn(Entity<C>) -> Option<Entity<C>>) -> bool {
    forall|e: Entity<C>| (#[trigger] f(e)) matches Some(r) ==> r.id == e.id
}

/// Removing and changing entities, each under its identifier, keeps their
/// order.
pub proof fn lemma_filter_map_ordered<C>(
    entities: Seq<Entity<C>>,
    f: spec_fn(Entity<C>) -> Option<Entity<C>>,
    bound: int,
)
    requires
        ordered_below(entities, bound),
        keeps_id(f),
    ensures
        ordered_below(entities.filter_map(f), bound),
    decreases entities.len(),
{
    if entities.len() > 0 {
        let rest = entities.drop_last();
        let x = entities.last();
        assert forall|i: int| 0 <= i < rest.len() implies (#[trigger] rest[i]).id < x.id by {
            assert(rest[i] == entities[i]);
        }
        assert forall|i: int, j: int| 0 <= i < j < rest.len() implies (#[trigger] rest[i]).id < (
        #[trigger] rest[j]).id by {
            assert(rest[i] == entities[i]);
            assert(rest[j] == entities[j]);
        }
        lemma_filter_map_ordered(rest, f, x.id as int);
    }
}

/// Removing entities keeps the order of the others.
pub proof fn lemma_filter_ordered<C>(
    entities: Seq<Entity<C>>,
    keep: spec_fn(Entity<C>) -> bool,
    bound: int,
)
    requires
        ordered_below(entities, bound),
    ensures
        ordered_below(entities.filter(keep), bound),
    decreases entities.len(),
{
    reveal(Seq::filter);
    if entities.len() > 0 {
        let rest = entities.drop_last();
        let x = entities.last();
        assert forall|i: int| 0 <= i < rest.len() implies (#[trigger] rest[i]).id < x.id by {
            assert(rest[i] == entities[i]);
        }
        assert forall|i: int, j: int| 0 <= i < j < rest.len() implies (#[trigger] rest[i]).id < (
        #[trigger] rest[j]).id by {
            assert(rest[i] == entities[i]);
            assert(rest[j] == entities[j]);
        }
        lemma_filter_ordered(rest, keep, x.id as int);
    }
}

/// What holds of all entities holds of what is made of those that stay.
pub proof fn lemma_filter_map_all<A, B>(
    entities: Seq<A>,
    f: spec_fn(A) -> Option<B>,
    before: spec_fn(A) -> bool,
    after: spec_fn(B) -> bool,
)
    requires
        entities.all(before),
        forall|a: A| before(a) && (#[trigger] f(a)) is Some ==> after(f(a)->0),
    ensures
        entities.filter_map(f).all(after),
    decreases entities.len(),
{
    if entities.len() > 0 {
        let rest = entities.drop_last();
        assert forall|i: int| 0 <= i < rest.len() implies #[trigger] before(rest[i]) by {
            assert(rest[i] == entities[i]);
        }
        lemma_filter_map_all(rest, f, before, after);
        assert(before(entities.last()));
    }
}

/// What holds of all entities holds of those that stay, and so does what
/// they were kept for.
pub proof fn lemma_filter_all<A>(
    entities: Seq<A>,
    keep: spec_fn(A) -> bool,
    p: spec_fn(A) -> bool,
)
    requires
        entities.all(p),
    ensures
        entities.filter(keep).all(p),
        entities.filter(keep).all(keep),
    decreases entities.len(),
{
    reveal(Seq::filter);
    if entities.len() > 0 {
        let rest = entities.drop_last();
        assert forall|i: int| 0 <= i < rest.len() implies #[trigger] p(rest[i]) by {
            assert(rest[i] == entities[i]);
        }
        lemma_filter_all(rest, keep, p);
        assert(p(entities.last()));
    }
}

impl Enemy {
    /// An enemy as each wave sends it: unhurt, at the start of the route.
    pub open spec fn spec_fresh() -> Enemy {
        Enemy { health: ENEMY_HEALTH, max_health: ENEMY_HEALTH, speed: ENEMY_SPEED, path_progress: 0 }
    }

    /// An enemy as each wave sends it: unhurt, at the start of the route.
    #[verifier::when_used_as_spec(spec_fresh)]
    pub fn fresh() -> (enemy: Enemy)
        ensures
            enemy == Enemy::spec_fresh(),
    {
        Enemy { health: ENEMY_HEALTH, max_health: ENEMY_HEALTH, speed: ENEMY_SPEED, path_progress: 0 }
    }
}

impl Tower {
    /// A tower as it is built: ready to cool down for its first shot.
    pub open spec fn spec_fresh() -> Tower {
        Tower { damage: TOWER_DAMAGE, range: TOWER_RANGE, fire_rate: TOWER_FIRE_RATE, last_shot: 0 }
    }

    /// A tower as it is built: ready to cool down for its first shot.
    #[verifier::when_used_as_spec(spec_fresh)]
    pub fn fresh() -> (tower: Tower)
        ensures
            tower == Tower::spec_fresh(),
    {
        Tower { damage: TOWER_DAMAGE, range: TOWER_RANGE, fire_rate: TOWER_FIRE_RATE, last_shot: 0 }
    }
}

} // verus!
