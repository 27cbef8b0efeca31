//! The systems of a tick. Homing, movement, firing and expiry run first,
//! in that order; the physics engine then finds the overlaps; the collision
//! resolver reads its events; and the commit applies what was queued.

use crate::cooldown::Cooldown;
use crate::entity::{
    enemy_at, player_at, projectile_at, Components, Entity, Reason, Record, Role, SpatialBody,
    ENEMY_SPEED, ENEMY_START_X, PLAYER_SPEED, PROJECTILE_SPEED,
};
use crate::events::{removal_targets, CollisionEvent};
use crate::store::{
    entity_of, lemma_doom_all_step, spared, target_of, CommitReport, EntityStore, StoreModel,
};
use crate::vector::{aim, clamp_i32, scaled, step_along, Vec2};
use vstd::prelude::*;

verus! {

/// The store after the collision resolver has read `events`: a removal is
/// requested for the target of each event, in the order of the events.
pub open spec fn resolved(s: StoreModel, events: Seq<CollisionEvent>) -> StoreModel {
    s.doom_all(events.filter_map(removal_targets()), Reason::Collision)
}

/// The collision resolver. Reads the events of this tick in order and
/// requests the removal of each projectile that began to touch a body its
/// layers interact with. It only appends to the removal queue: nothing
/// leaves the store before the commit. Returns how many requests it added.
pub fn projectile_collision_event(store: &mut EntityStore, events: &Vec<CollisionEvent>) -> (added:
    usize)
    ensures
        final(store)@ == resolved(old(store)@, events@),
        final(store)@.wf(),
        final(store)@.live == old(store)@.live,
        final(store)@.spawning == old(store)@.spawning,
        final(store)@.next_id == old(store)@.next_id,
        final(store)@.removals.len() == old(store)@.removals.len() + added,
{
    proof {
        use_type_invariant(&*store);
    }
    let mut added: usize = 0;
    let mut i: usize = 0;
    proof {
        assert(events@.take(0).filter_map(removal_targets()) =~= Seq::<Entity>::empty());
    }
    while i < events.len()
        invariant
            i <= events.len(),
            added <= i,
            store@.wf(),
            store@ == old(store)@.doom_all(
                events@.take(i as int).filter_map(removal_targets()),
                Reason::Collision,
            ),
            store@.live == old(store)@.live,
            store@.spawning == old(store)@.spawning,
            store@.next_id == old(store)@.next_id,
            store@.removals.len() == old(store)@.removals.len() + added,
        decreases events.len() - i,
    {
        proof {
            events@.lemma_filter_map_take_succ(removal_targets(), i as int);
        }
        match events[i].target() {
            Some(entity) => {
                proof {
                    lemma_doom_all_step(
                        old(store)@,
                        events@.take(i as int).filter_map(removal_targets()),
                        entity,
                        Reason::Collision,
                    );
                }
                if store.request_destroy(entity, Reason::Collision) {
                    added += 1;
                }
            },
            None => {
                proof {
                    let sofar = events@.take(i as int).filter_map(removal_targets());
                    assert(sofar + Seq::<Entity>::empty() =~= sofar);
                }
            },
        }
        i += 1;
    }
    proof {
        assert(events@.take(events.len() as int) =~= events@);
    }
    added
}

/// Which of the four direction keys are held down.
#[derive(Clone, Copy, Debug, PartialEq, Eq, Structural)]
pub struct DirectionKeys {
    pub up: bool,
    pub down: bool,
    pub left: bool,
    pub right: bool,
}

/// An entity and the number of bodies it is touching at the moment.
#[derive(Clone, Copy, Debug, PartialEq, Eq, Structural)]
pub struct Contacts {
    pub entity: Entity,
    pub touching: usize,
}

/// `r` with `components` in place of its own.
pub open spec fn with_components(r: Record, components: Components) -> Record {
    Record { entity: r.entity, components }
}

/// The store with `live` in place of its live records.
pub open spec fn with_live(s: StoreModel, live: Seq<Record>) -> StoreModel {
    StoreModel { live, ..s }
}

/// The position of `r` where it is a player.
pub open spec fn player_position(r: Record) -> Option<Vec2> {
    if r.components.is_player() {
        Some(r.components.body.position)
    } else {
        None
    }
}

/// [`player_position`] as a function value.
pub open spec fn player_positions() -> spec_fn(Record) -> Option<Vec2> {
    |r: Record| player_position(r)
}

/// The position of `r` where it is an enemy.
pub open spec fn enemy_position(r: Record) -> Option<Vec2> {
    if r.components.is_enemy() {
        Some(r.components.body.position)
    } else {
        None
    }
}

/// [`enemy_position`] as a function value.
pub open spec fn enemy_positions() -> spec_fn(Record) -> Option<Vec2> {
    |r: Record| enemy_position(r)
}

/// The store after setup: a player at the origin and an enemy to its right
/// are queued to spawn.
pub open spec fn set_up(s: StoreModel) -> StoreModel {
    s.request_spawn(player_at(Vec2 { x: 0, y: 0 })).request_spawn(
        enemy_at(Vec2 { x: ENEMY_START_X, y: 0 }),
    )
}

/// Queues the spawn of the player, at the origin, and of the enemy, to its
/// right. Returns their identifiers, the player's first; one is `None` where
/// the identifiers were used up before its turn.
pub fn setup(store: &mut EntityStore) -> (r: (Option<Entity>, Option<Entity>))
    ensures
        final(store)@ == set_up(old(store)@),
        final(store)@.wf(),
        r.0 is Some <==> old(store)@.next_id < u64::MAX,
        r.0 matches Some(e) ==> e.id == old(store)@.next_id,
        r.1 is Some <==> old(store)@.next_id + 1 < u64::MAX,
        r.1 matches Some(e) ==> e.id == old(store)@.next_id + 1,
{
    proof {
        use_type_invariant(&*store);
    }
    let player = store.request_spawn(Components::player(Vec2::zero()));
    let enemy = store.request_spawn(Components::enemy(Vec2::new(ENEMY_START_X, 0)));
    (player, enemy)
}

/// `r` after `elapsed` milliseconds: a projectile has that much less of its
/// lifetime left, and never less than nothing.
pub open spec fn aged(r: Record, elapsed: u32) -> Record {
    match r.components.role {
        Role::Projectile { remaining } => with_components(
            r,
            Components {
                role: Role::Projectile {
                    remaining: if remaining > elapsed {
                        (remaining - elapsed) as u32
                    } else {
                        0
                    },
                },
                ..r.components
            },
        ),
        _ => r,
    }
}

/// [`aged`] as a function value.
pub open spec fn aging(elapsed: u32) -> spec_fn(Record) -> Record {
    |r: Record| aged(r, elapsed)
}

/// The entity of `r` where `r` is a projectile whose lifetime ends within
/// `elapsed` milliseconds.
pub open spec fn expired(r: Record, elapsed: u32) -> Option<Entity> {
    match r.components.role {
        Role::Projectile { remaining } => if remaining <= elapsed {
            Some(r.entity)
        } else {
            None
        },
        _ => None,
    }
}

/// [`expired`] as a function value.
pub open spec fn expiring(elapsed: u32) -> spec_fn(Record) -> Option<Entity> {
    |r: Record| expired(r, elapsed)
}

/// The store after the expiry system: every live projectile has aged, and a
/// removal is requested for each whose lifetime has ended.
pub open spec fn expiry(s: StoreModel, elapsed: u32) -> StoreModel {
    with_live(s, s.live.map_values(aging(elapsed))).doom_all(
        s.live.filter_map(expiring(elapsed)),
        Reason::Expired,
    )
}

/// The expiry system. Takes `elapsed` milliseconds off the lifetime of every
/// live projectile and requests the removal of those with nothing left.
pub fn expire_projectile(store: &mut EntityStore, elapsed: u32)
    ensures
        final(store)@ == expiry(old(store)@, elapsed),
        final(store)@.wf(),
        final(store)@.spawning == old(store)@.spawning,
        final(store)@.next_id == old(store)@.next_id,
{
    proof {
        use_type_invariant(&*store);
    }
    let n = store.len();
    let mut targets: Vec<Entity> = Vec::new();
    let mut i: usize = 0;
    proof {
        assert(old(store)@.live.take(0).filter_map(expiring(elapsed)) =~= Seq::<Entity>::empty());
    }
    while i < n
        invariant
            i <= n,
            n == old(store)@.live.len(),
            store@.wf(),
            store@.live.len() == n,
            forall|k: int| 0 <= k < i ==> store@.live[k] == aged(old(store)@.live[k], elapsed),
            forall|k: int| i <= k < n ==> store@.live[k] == old(store)@.live[k],
            store@.spawning == old(store)@.spawning,
            store@.removals == old(store)@.removals,
            store@.next_id == old(store)@.next_id,
            targets@ == old(store)@.live.take(i as int).filter_map(expiring(elapsed)),
        decreases n - i,
    {
        proof {
            old(store)@.live.lemma_filter_map_take_succ(expiring(elapsed), i as int);
        }
        match store.record(i) {
            Some(r) => {
                match r.components.role {
                    Role::Projectile { remaining } => {
                        let left: u32 = if remaining > elapsed {
                            remaining - elapsed
                        } else {
                            0
                        };
                        let mut components = r.components;
                        components.role = Role::Projectile { remaining: left };
                        store.set_components(i, components);
                        if remaining <= elapsed {
                            targets.push(r.entity);
                        }
                    },
                    _ => {},
                }
            },
            None => {},
        }
        proof {
            let sofar = old(store)@.live.take(i as int).filter_map(expiring(elapsed));
            assert(sofar + Seq::<Entity>::empty() =~= sofar);
        }
        i += 1;
    }
    proof {
        assert(old(store)@.live.take(n as int) =~= old(store)@.live);
        assert(store@.live =~= old(store)@.live.map_values(aging(elapsed)));
    }
    store.doom_each(&targets, Reason::Expired);
}

/// The direction that the held keys ask for: right and up count one, left
/// and down minus one, on their axis.
pub open spec fn key_direction(keys: DirectionKeys) -> (int, int) {
    (
        (if keys.right {
            1int
        } else {
            0int
        }) - (if keys.left {
            1int
        } else {
            0int
        }),
        (if keys.up {
            1int
        } else {
            0int
        }) - (if keys.down {
            1int
        } else {
            0int
        }),
    )
}

/// How far the player moves in `elapsed` milliseconds with `keys` held:
/// nothing where the keys cancel out, else the player's speed times the
/// time along the direction of the keys.
pub open spec fn player_step(keys: DirectionKeys, elapsed: u32) -> (int, int) {
    let (dx, dy) = key_direction(keys);
    if dx == 0 && dy == 0 {
        (0, 0)
    } else {
        scaled(dx, dy, PLAYER_SPEED * elapsed)
    }
}

/// `r` moved by `step` where it is a player, each coordinate kept within
/// the range of positions.
pub open spec fn moved(r: Record, step: (int, int)) -> Record {
    if r.components.is_player() {
        with_components(
            r,
            Components {
                body: SpatialBody {
                    position: Vec2 {
                        x: clamp_i32(r.components.body.position.x + step.0) as i32,
                        y: clamp_i32(r.components.body.position.y + step.1) as i32,
                    },
                    ..r.components.body
                },
                ..r.components
            },
        )
    } else {
        r
    }
}

/// [`moved`] as a function value.
pub open spec fn moving(step: (int, int)) -> spec_fn(Record) -> Record {
    |r: Record| moved(r, step)
}

/// The store after the movement system: every live player has moved by the
/// step that the keys and the time give.
pub open spec fn movement(s: StoreModel, keys: DirectionKeys, elapsed: u32) -> StoreModel {
    with_live(s, s.live.map_values(moving(player_step(keys, elapsed))))
}

/// The movement system. Moves every live player along the direction of the
/// held keys, by the player's speed times `elapsed` milliseconds. Keys that
/// cancel out move nothing.
pub fn player_movement(store: &mut EntityStore, keys: DirectionKeys, elapsed: u32)
    ensures
        final(store)@ == movement(old(store)@, keys, elapsed),
        final(store)@.wf(),
        key_direction(keys) == (0int, 0int) ==> final(store)@ == old(store)@,
{
    proof {
        use_type_invariant(&*store);
    }
    let mut dx: i8 = 0;
    let mut dy: i8 = 0;
    if keys.up {
        dy = dy + 1;
    }
    if keys.down {
        dy = dy - 1;
    }
    if keys.left {
        dx = dx - 1;
    }
    if keys.right {
        dx = dx + 1;
    }
    if dx == 0 && dy == 0 {
        proof {
            assert(store@.live =~= store@.live.map_values(moving(player_step(keys, elapsed))));
        }
        return ;
    }
    let (sx, sy) = step_along(dx, dy, PLAYER_SPEED * (elapsed as u64));
    let ghost step = player_step(keys, elapsed);
    let n = store.len();
    let mut i: usize = 0;
    while i < n
        invariant
            i <= n,
            n == old(store)@.live.len(),
            store@.wf(),
            store@.live.len() == n,
            step == (sx as int, sy as int),
            forall|k: int| 0 <= k < i ==> store@.live[k] == moved(old(store)@.live[k], step),
            forall|k: int| i <= k < n ==> store@.live[k] == old(store)@.live[k],
            store@.spawning == old(store)@.spawning,
            store@.removals == old(store)@.removals,
            store@.next_id == old(store)@.next_id,
        decreases n - i,
    {
        match store.record(i) {
            Some(r) => {
                match r.components.role {
                    Role::Player { cooldown: _ } => {
                        let mut components = r.components;
                        components.body.position = r.components.body.position.moved_by(sx, sy);
                        store.set_components(i, components);
                    },
                    _ => {},
                }
            },
            None => {},
        }
        i += 1;
    }
    proof {
        assert(store@.live =~= old(store)@.live.map_values(moving(step)));
    }
}

/// The last of `points` that is not `here`.
pub open spec fn last_other(points: Seq<Vec2>, here: Vec2) -> Option<Vec2>
    decreases points.len(),
{
    if points.len() == 0 {
        None
    } else if points.last() != here {
        Some(points.last())
    } else {
        last_other(points.drop_last(), here)
    }
}

/// `r` with its velocity turned towards the last of `players` that is not
/// where `r` is, where `r` is an enemy and there is such a player.
pub open spec fn homed(r: Record, players: Seq<Vec2>) -> Record {
    if r.components.is_enemy() {
        match last_other(players, r.components.body.position) {
            Some(target) => match aim(r.components.body.position, target, ENEMY_SPEED as int) {
                Some(velocity) => with_components(r, Components { velocity, ..r.components }),
                None => r,
            },
            None => r,
        }
    } else {
        r
    }
}

/// [`homed`] as a function value.
pub open spec fn homing(players: Seq<Vec2>) -> spec_fn(Record) -> Record {
    |r: Record| homed(r, players)
}

/// The store after the homing system: every live enemy heads for the
/// player at its fixed speed, and keeps its velocity where it is on the
/// player.
pub open spec fn pursuit(s: StoreModel) -> StoreModel {
    with_live(s, s.live.map_values(homing(s.live.filter_map(player_positions()))))
}

/// The positions of the live players, or else of the live enemies, in
/// order.
fn positions(store: &EntityStore, players: bool) -> (r: Vec<Vec2>)
    ensures
        players ==> r@ == store@.live.filter_map(player_positions()),
        !players ==> r@ == store@.live.filter_map(enemy_positions()),
{
    let n = store.len();
    let mut found: Vec<Vec2> = Vec::new();
    let mut i: usize = 0;
    proof {
        assert(store@.live.take(0).filter_map(player_positions()) =~= Seq::<Vec2>::empty());
        assert(store@.live.take(0).filter_map(enemy_positions()) =~= Seq::<Vec2>::empty());
    }
    while i < n
        invariant
            i <= n,
            n == store@.live.len(),
            players ==> found@ == store@.live.take(i as int).filter_map(player_positions()),
            !players ==> found@ == store@.live.take(i as int).filter_map(enemy_positions()),
        decreases n - i,
    {
        proof {
            store@.live.lemma_filter_map_take_succ(player_positions(), i as int);
            store@.live.lemma_filter_map_take_succ(enemy_positions(), i as int);
            assert(found@ + Seq::<Vec2>::empty() =~= found@);
        }
        match store.record(i) {
            Some(r) => {
                match r.components.role {
                    Role::Player { cooldown: _ } => {
                        if players {
                            found.push(r.components.body.position);
                        }
                    },
                    Role::Enemy => {
                        if !players {
                            found.push(r.components.body.position);
                        }
                    },
                    _ => {},
                }
            },
            None => {},
        }
        i += 1;
    }
    proof {
        assert(store@.live.take(n as int) =~= store@.live);
    }
    found
}

/// The last of `points` that is not `here`.
fn find_last_other(points: &Vec<Vec2>, here: Vec2) -> (r: Option<Vec2>)
    ensures
        r == last_other(points@, here),
{
    let mut target: Option<Vec2> = None;
    let mut j: usize = 0;
    while j < points.len()
        invariant
            j <= points.len(),
            target == last_other(points@.take(j as int), here),
        decreases points.len() - j,
    {
        proof {
            assert(points@.take(j + 1).drop_last() =~= points@.take(j as int));
        }
        let p = points[j];
        if p.x != here.x || p.y != here.y {
            target = Some(p);
        }
        j += 1;
    }
    proof {
        assert(points@.take(points.len() as int) =~= points@);
    }
    target
}

/// The homing system. Points the velocity of every live enemy at the
/// player, with the enemy's fixed speed. An enemy that is where the player
/// is keeps its velocity.
pub fn enemy_movement(store: &mut EntityStore)
    ensures
        final(store)@ == pursuit(old(store)@),
        final(store)@.wf(),
{
    proof {
        use_type_invariant(&*store);
    }
    let players = positions(store, true);
    let n = store.len();
    let mut i: usize = 0;
    while i < n
        invariant
            i <= n,
            n == old(store)@.live.len(),
            store@.wf(),
            store@.live.len() == n,
            players@ == old(store)@.live.filter_map(player_positions()),
            forall|k: int| 0 <= k < i ==> store@.live[k] == homed(old(store)@.live[k], players@),
            forall|k: int| i <= k < n ==> store@.live[k] == old(store)@.live[k],
            store@.spawning == old(store)@.spawning,
            store@.removals == old(store)@.removals,
            store@.next_id == old(store)@.next_id,
        decreases n - i,
    {
        match store.record(i) {
            Some(r) => {
                match r.components.role {
                    Role::Enemy => {
                        let here = r.components.body.position;
                        match find_last_other(&players, here) {
                            Some(target) => {
                                match here.aim_at(target, ENEMY_SPEED) {
                                    Some(velocity) => {
                                        let mut components = r.components;
                                        components.velocity = velocity;
                                        store.set_components(i, components);
                                    },
                                    None => {},
                                }
                            },
                            None => {},
                        }
                    },
                    _ => {},
                }
            },
            None => {},
        }
        i += 1;
    }
    proof {
        assert(store@.live =~= old(store)@.live.map_values(homing(players@)));
    }
}

/// The position of the enemy where exactly one enemy is live.
pub open spec fn sole_target(live: Seq<Record>) -> Option<Vec2> {
    let enemies = live.filter_map(enemy_positions());
    if enemies.len() == 1 {
        Some(enemies[0])
    } else {
        None
    }
}

/// `r` after `elapsed` milliseconds of cooling down, where it is a player.
pub open spec fn cooled(r: Record, elapsed: u32) -> Record {
    match r.components.role {
        Role::Player { cooldown } => with_components(
            r,
            Components {
                role: Role::Player { cooldown: cooldown.advanced(elapsed) },
                ..r.components
            },
        ),
        _ => r,
    }
}

/// [`cooled`] as a function value.
pub open spec fn cooling(elapsed: u32) -> spec_fn(Record) -> Record {
    |r: Record| cooled(r, elapsed)
}

/// The projectile that `r` fires within `elapsed` milliseconds at `target`:
/// one where `r` is a player whose cooldown ends a period in that time,
/// there is a target, and the target is not where the player is.
pub open spec fn shot(r: Record, elapsed: u32, target: Option<Vec2>) -> Option<Components> {
    match (r.components.role, target) {
        (Role::Player { cooldown }, Some(t)) => if cooldown.fires(elapsed) {
            match aim(r.components.body.position, t, PROJECTILE_SPEED as int) {
                Some(velocity) => Some(projectile_at(r.components.body.position, velocity)),
                None => None,
            }
        } else {
            None
        },
        _ => None,
    }
}

/// [`shot`] as a function value.
pub open spec fn shooting(elapsed: u32, target: Option<Vec2>) -> spec_fn(Record) -> Option<
    Components,
> {
    |r: Record| shot(r, elapsed, target)
}

/// The store after the firing system: the cooldown of every live player has
/// advanced, and the projectiles fired are queued to spawn.
pub open spec fn firing(s: StoreModel, elapsed: u32) -> StoreModel {
    with_live(s, s.live.map_values(cooling(elapsed))).spawn_all(
        s.live.filter_map(shooting(elapsed, sole_target(s.live))),
    )
}

/// The firing system. Advances the cooldown of every live player by
/// `elapsed` milliseconds. A player whose cooldown ended a period fires one
/// projectile from where it stands towards the enemy, provided that exactly
/// one enemy is live and is not where the player is; the projectile is
/// queued to spawn.
pub fn shoot(store: &mut EntityStore, elapsed: u32)
    ensures
        final(store)@ == firing(old(store)@, elapsed),
        final(store)@.wf(),
        final(store)@.removals == old(store)@.removals,
{
    proof {
        use_type_invariant(&*store);
    }
    let enemies = positions(store, false);
    let target: Option<Vec2> = if enemies.len() == 1 {
        Some(enemies[0])
    } else {
        None
    };
    let n = store.len();
    let mut shots: Vec<Components> = Vec::new();
    let mut i: usize = 0;
    proof {
        assert(old(store)@.live.take(0).filter_map(shooting(elapsed, target)) =~= Seq::<
            Components,
        >::empty());
    }
    while i < n
        invariant
            i <= n,
            n == old(store)@.live.len(),
            store@.wf(),
            store@.live.len() == n,
            target == sole_target(old(store)@.live),
            forall|k: int| 0 <= k < i ==> store@.live[k] == cooled(old(store)@.live[k], elapsed),
            forall|k: int| i <= k < n ==> store@.live[k] == old(store)@.live[k],
            store@.spawning == old(store)@.spawning,
            store@.removals == old(store)@.removals,
            store@.next_id == old(store)@.next_id,
            shots@ == old(store)@.live.take(i as int).filter_map(shooting(elapsed, target)),
        decreases n - i,
    {
        proof {
            old(store)@.live.lemma_filter_map_take_succ(shooting(elapsed, target), i as int);
            assert(shots@ + Seq::<Components>::empty() =~= shots@);
        }
        match store.record(i) {
            Some(r) => {
                match r.components.role {
                    Role::Player { cooldown } => {
                        let mut timer: Cooldown = cooldown;
                        let fired = timer.tick(elapsed);
                        let mut components = r.components;
                        components.role = Role::Player { cooldown: timer };
                        store.set_components(i, components);
                        if fired {
                            match target {
                                Some(t) => {
                                    let here = r.components.body.position;
                                    match here.aim_at(t, PROJECTILE_SPEED) {
                                        Some(velocity) => {
                                            shots.push(Components::projectile(here, velocity));
                                        },
                                        None => {},
                                    }
                                },
                                None => {},
                            }
                        }
                    },
                    _ => {},
                }
            },
            None => {},
        }
        i += 1;
    }
    proof {
        assert(old(store)@.live.take(n as int) =~= old(store)@.live);
        assert(store@.live =~= old(store)@.live.map_values(cooling(elapsed)));
    }
    store.spawn_each(&shots);
}

/// The entity of `contacts` where it is a live projectile that touches
/// something.
pub open spec fn touched(live: Seq<Record>, contacts: Contacts) -> Option<Entity> {
    if contacts.touching > 0 && (exists|i: int|
        0 <= i < live.len() && (#[trigger] live[i]).entity == contacts.entity
            && live[i].components.is_projectile()) {
        Some(contacts.entity)
    } else {
        None
    }
}

/// [`touched`] as a function value.
pub open spec fn touching(live: Seq<Record>) -> spec_fn(Contacts) -> Option<Entity> {
    |contacts: Contacts| touched(live, contacts)
}

/// The store after the contact check: a removal is requested for each live
/// projectile that `contacts` reports as touching something.
pub open spec fn contact_check(s: StoreModel, contacts: Seq<Contacts>) -> StoreModel {
    s.doom_all(contacts.filter_map(touching(s.live)), Reason::Collision)
}

/// The contact check: a resolver for an engine that reports, per entity,
/// how many bodies it touches. Requests the removal of every live
/// projectile that touches at least one.
pub fn projectile_collision_check(store: &mut EntityStore, contacts: &Vec<Contacts>)
    ensures
        final(store)@ == contact_check(old(store)@, contacts@),
        final(store)@.wf(),
        final(store)@.live == old(store)@.live,
        final(store)@.spawning == old(store)@.spawning,
        final(store)@.next_id == old(store)@.next_id,
{
    proof {
        use_type_invariant(&*store);
    }
    let mut targets: Vec<Entity> = Vec::new();
    let mut i: usize = 0;
    let ghost live = store@.live;
    proof {
        assert(contacts@.take(0).filter_map(touching(live)) =~= Seq::<Entity>::empty());
    }
    while i < contacts.len()
        invariant
            i <= contacts.len(),
            store@ == old(store)@,
            live == store@.live,
            store@.wf(),
            targets@ == contacts@.take(i as int).filter_map(touching(live)),
        decreases contacts.len() - i,
    {
        proof {
            contacts@.lemma_filter_map_take_succ(touching(live), i as int);
            assert(targets@ + Seq::<Entity>::empty() =~= targets@);
        }
        let c = contacts[i];
        if c.touching > 0 {
            match store.index_of(c.entity) {
                Some(k) => {
                    match store.record(k) {
                        Some(r) => {
                            match r.components.role {
                                Role::Projectile { remaining: _ } => {
                                    targets.push(c.entity);
                                },
                                _ => {
                                    proof {
                                        assert forall|m: int|
                                            0 <= m < live.len() && (#[trigger] live[m]).entity
                                                == c.entity implies !live[m].components
                                            .is_projectile() by {
                                            assert(m == k);
                                        }
                                    }
                                },
                            }
                        },
                        None => {},
                    }
                },
                None => {},
            }
        }
        i += 1;
    }
    proof {
        assert(contacts@.take(contacts.len() as int) =~= contacts@);
    }
    store.doom_each(&targets, Reason::Collision);
}

/// Whether the boxes of `a` and `b` overlap. The box of a body is centred
/// on its position and as wide and as high as its scale; two boxes overlap
/// where on both axes each begins before the other ends. Coordinates are
/// doubled so that half a scale is exact.
pub open spec fn overlaps(a: SpatialBody, b: SpatialBody) -> bool {
    &&& 2 * a.position.x - a.scale < 2 * b.position.x + b.scale
    &&& 2 * a.position.x + a.scale > 2 * b.position.x - b.scale
    &&& 2 * a.position.y - a.scale < 2 * b.position.y + b.scale
    &&& 2 * a.position.y + a.scale > 2 * b.position.y - b.scale
}

/// Whether the box of `body` overlaps the box of a live enemy.
pub open spec fn hits_enemy(body: SpatialBody, live: Seq<Record>) -> bool {
    exists|j: int|
        0 <= j < live.len() && (#[trigger] live[j]).components.is_enemy() && overlaps(
            body,
            live[j].components.body,
        )
}

/// The entity of `r` where it is a projectile whose box overlaps the box of
/// a live enemy.
pub open spec fn struck(r: Record, live: Seq<Record>) -> Option<Entity> {
    if r.components.is_projectile() && hits_enemy(r.components.body, live) {
        Some(r.entity)
    } else {
        None
    }
}

/// [`struck`] as a function value.
pub open spec fn striking(live: Seq<Record>) -> spec_fn(Record) -> Option<Entity> {
    |r: Record| struck(r, live)
}

/// The store after the overlap check: a removal is requested for each live
/// projectile whose box overlaps the box of a live enemy.
pub open spec fn overlap_check(s: StoreModel) -> StoreModel {
    s.doom_all(s.live.filter_map(striking(s.live)), Reason::Collision)
}

/// Whether the boxes of `a` and `b` overlap.
pub fn boxes_overlap(a: &SpatialBody, b: &SpatialBody) -> (r: bool)
    ensures
        r == overlaps(*a, *b),
{
    let ax: i64 = 2 * (a.position.x as i64);
    let ay: i64 = 2 * (a.position.y as i64);
    let bx: i64 = 2 * (b.position.x as i64);
    let by: i64 = 2 * (b.position.y as i64);
    let sa: i64 = a.scale as i64;
    let sb: i64 = b.scale as i64;
    ax - sa < bx + sb && ax + sa > bx - sb && ay - sa < by + sb && ay + sa > by - sb
}

/// Whether the box of `body` overlaps the box of a live enemy.
fn overlaps_enemy(store: &EntityStore, body: &SpatialBody) -> (r: bool)
    ensures
        r == hits_enemy(*body, store@.live),
{
    let n = store.len();
    let mut j: usize = 0;
    while j < n
        invariant
            j <= n,
            n == store@.live.len(),
            forall|k: int|
                0 <= k < j ==> !((#[trigger] store@.live[k]).components.is_enemy() && overlaps(
                    *body,
                    store@.live[k].components.body,
                )),
        decreases n - j,
    {
        match store.record(j) {
            Some(other) => {
                match other.components.role {
                    Role::Enemy => {
                        if boxes_overlap(body, &other.components.body) {
                            return true;
                        }
                    },
                    _ => {},
                }
            },
            None => {},
        }
        j += 1;
    }
    false
}

/// The overlap check: a resolver that needs no physics engine. Requests the
/// removal of every live projectile whose box overlaps the box of a live
/// enemy.
pub fn projectile_collide_check(store: &mut EntityStore)
    ensures
        final(store)@ == overlap_check(old(store)@),
        final(store)@.wf(),
        final(store)@.live == old(store)@.live,
        final(store)@.spawning == old(store)@.spawning,
        final(store)@.next_id == old(store)@.next_id,
{
    proof {
        use_type_invariant(&*store);
    }
    let n = store.len();
    let mut targets: Vec<Entity> = Vec::new();
    let mut i: usize = 0;
    let ghost live = store@.live;
    proof {
        assert(live.take(0).filter_map(striking(live)) =~= Seq::<Entity>::empty());
    }
    while i < n
        invariant
            i <= n,
            n == live.len(),
            store@ == old(store)@,
            live == store@.live,
            targets@ == live.take(i as int).filter_map(striking(live)),
        decreases n - i,
    {
        proof {
            live.lemma_filter_map_take_succ(striking(live), i as int);
            assert(targets@ + Seq::<Entity>::empty() =~= targets@);
        }
        match store.record(i) {
            Some(r) => {
                match r.components.role {
                    Role::Projectile { remaining: _ } => {
                        if overlaps_enemy(store, &r.components.body) {
                            targets.push(r.entity);
                        }
                    },
                    _ => {},
                }
            },
            None => {},
        }
        i += 1;
    }
    proof {
        assert(live.take(n as int) =~= live);
    }
    store.doom_each(&targets, Reason::Collision);
}

/// The store after the systems that run before the physics step: homing,
/// movement, firing and expiry, in that order.
pub open spec fn updated(s: StoreModel, keys: DirectionKeys, elapsed: u32) -> StoreModel {
    expiry(firing(movement(pursuit(s), keys, elapsed), elapsed), elapsed)
}

/// The first half of a tick: runs homing, movement, firing and expiry, in
/// that order, for `elapsed` milliseconds. The physics step comes next, and
/// [`post_update`] after it.
pub fn update(store: &mut EntityStore, keys: DirectionKeys, elapsed: u32)
    ensures
        final(store)@ == updated(old(store)@, keys, elapsed),
        final(store)@.wf(),
{
    enemy_movement(store);
    player_movement(store, keys, elapsed);
    shoot(store, elapsed);
    expire_projectile(store, elapsed);
}

/// The store at the end of a tick: the resolver has read the events, and
/// then every queued change was committed.
pub open spec fn concluded(s: StoreModel, events: Seq<CollisionEvent>) -> StoreModel {
    resolved(s, events).commit()
}

/// The second half of a tick: hands every event of the physics step to the
/// resolver and only then commits, so that no event of this tick finds an
/// entity half removed.
pub fn post_update(store: &mut EntityStore, events: &Vec<CollisionEvent>) -> (report: CommitReport)
    ensures
        final(store)@ == concluded(old(store)@, events@),
        final(store)@.wf(),
        report.destroyed@ == resolved(old(store)@, events@).removals.map_values(target_of()),
        report.spawned@ == old(store)@.spawning.filter(
            spared(resolved(old(store)@, events@).removals),
        ).map_values(entity_of()),
{
    projectile_collision_event(store, events);
    store.commit()
}

} // verus!
