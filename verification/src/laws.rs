//! Laws of the lifecycle: what holds of every store, whatever the systems
//! of a tick ask of it.

use crate::entity::{Components, Entity, Reason, Record, RemovalRequest};
use crate::events::{removal_target, removal_targets, CollisionData, CollisionEvent};
use crate::layer::CollisionLayers;
use crate::store::{
    holds, lemma_commit_wf, lemma_filter_records, lemma_request_destroy_wf, queued, spared,
    StoreModel,
};
use crate::systems::{
    aged, expired, homed, key_direction, last_other, movement, moving, player_step, resolved, shot,
    DirectionKeys,
};
use crate::vector::{aim, Vec2};
use vstd::prelude::*;

verus! {

/// The store after one request to remove `entity` for each of `reasons`.
pub open spec fn destroy_repeatedly(
    s: StoreModel,
    entity: Entity,
    reasons: Seq<Reason>,
) -> StoreModel
    decreases reasons.len(),
{
    if reasons.len() == 0 {
        s
    } else {
        destroy_repeatedly(s, entity, reasons.drop_last()).request_destroy(entity, reasons.last())
    }
}

/// The queued removals that ask for `entity`.
pub open spec fn requests_for(removals: Seq<RemovalRequest>, entity: Entity) -> Seq<
    RemovalRequest,
> {
    removals.filter(|q: RemovalRequest| q.entity == entity)
}

/// `r` after each of `ticks` in turn, given in milliseconds.
pub open spec fn aged_through(r: Record, ticks: Seq<u32>) -> Record
    decreases ticks.len(),
{
    if ticks.len() == 0 {
        r
    } else {
        aged(aged_through(r, ticks.drop_last()), ticks.last())
    }
}

/// The sum of `ticks`.
pub open spec fn total(ticks: Seq<u32>) -> int
    decreases ticks.len(),
{
    if ticks.len() == 0 {
        0
    } else {
        total(ticks.drop_last()) + ticks.last()
    }
}

/// Requests to remove any entities, in any number, keep the invariant of
/// the store and touch nothing but the removal queue.
pub proof fn lemma_doom_all_wf(s: StoreModel, targets: Seq<Entity>, reason: Reason)
    requires
        s.wf(),
    ensures
        s.doom_all(targets, reason).wf(),
        s.doom_all(targets, reason).live == s.live,
        s.doom_all(targets, reason).spawning == s.spawning,
        s.doom_all(targets, reason).next_id == s.next_id,
    decreases targets.len(),
{
    if targets.len() > 0 {
        lemma_doom_all_wf(s, targets.drop_last(), reason);
        lemma_request_destroy_wf(s.doom_all(targets.drop_last(), reason), targets.last(), reason);
    }
}

/// Idempotent destruction. However often the removal of an entity is
/// requested within a tick, and for whatever reasons, the store ends up as
/// after the first request alone. Where the store knows the entity, the
/// queue then asks for it exactly once; and after the commit the store no
/// longer knows it.
pub proof fn lemma_destroy_idempotent(s: StoreModel, entity: Entity, reasons: Seq<Reason>)
    requires
        s.wf(),
        reasons.len() >= 1,
    ensures
        destroy_repeatedly(s, entity, reasons) == s.request_destroy(entity, reasons[0]),
        destroy_repeatedly(s, entity, reasons).wf(),
        s.knows(entity) ==> requests_for(
            destroy_repeatedly(s, entity, reasons).removals,
            entity,
        ).len() == 1,
        !destroy_repeatedly(s, entity, reasons).commit().knows(entity),
    decreases reasons.len(),
{
    let first = s.request_destroy(entity, reasons[0]);
    lemma_request_destroy_wf(s, entity, reasons[0]);
    if reasons.len() == 1 {
        assert(reasons.drop_last().len() == 0);
        assert(destroy_repeatedly(s, entity, reasons.drop_last()) == s);
        assert(reasons.last() == reasons[0]);
    } else {
        lemma_destroy_idempotent(s, entity, reasons.drop_last());
        assert(reasons.drop_last()[0] == reasons[0]);
        lemma_second_request_changes_nothing(s, entity, reasons[0], reasons.last());
    }
    lemma_count_requests(first.removals, entity);
    if s.knows(entity) {
        if s.is_doomed(entity) {
            assert(first == s);
        } else {
            assert(first.removals[s.removals.len() as int].entity == entity);
        }
        assert(queued(first.removals, entity));
    }
    lemma_commit_forgets(first, entity);
}

/// A second request to remove the same entity changes nothing.
pub proof fn lemma_second_request_changes_nothing(
    s: StoreModel,
    entity: Entity,
    first: Reason,
    second: Reason,
)
    ensures
        s.request_destroy(entity, first).request_destroy(entity, second) == s.request_destroy(
            entity,
            first,
        ),
{
    let t = s.request_destroy(entity, first);
    if s.knows(entity) && !s.is_doomed(entity) {
        assert(t.removals[s.removals.len() as int].entity == entity);
        assert(t.is_doomed(entity));
    }
}

/// A queue that names no entity twice holds one request for an entity it
/// names, and none for any other.
pub proof fn lemma_count_requests(removals: Seq<RemovalRequest>, entity: Entity)
    requires
        forall|i: int, j: int|
            0 <= i < j < removals.len() ==> (#[trigger] removals[i]).entity != (
            #[trigger] removals[j]).entity,
    ensures
        requests_for(removals, entity).len() == (if queued(removals, entity) {
            1nat
        } else {
            0nat
        }),
    decreases removals.len(),
{
    reveal(Seq::filter);
    let same = |q: RemovalRequest| q.entity == entity;
    if removals.len() > 0 {
        let front = removals.drop_last();
        assert forall|i: int, j: int| 0 <= i < j < front.len() implies (#[trigger] front[i]).entity
            != (#[trigger] front[j]).entity by {
            assert(removals[i].entity != removals[j].entity);
        }
        lemma_count_requests(front, entity);
        assert(requests_for(front, entity) == front.filter(same));
        if queued(front, entity) {
            let k = choose|k: int| 0 <= k < front.len() && (#[trigger] front[k]).entity == entity;
            assert(removals[k].entity == entity);
            assert(removals[k].entity != removals[removals.len() - 1].entity);
        } else if removals.last().entity == entity {
            assert(removals[removals.len() - 1].entity == entity);
        } else {
            if queued(removals, entity) {
                let k = choose|k: int|
                    0 <= k < removals.len() && (#[trigger] removals[k]).entity == entity;
                assert(front[k].entity == entity);
            }
        }
    }
}

/// After a commit the store knows no entity whose removal was queued, and
/// none that it did not know before.
pub proof fn lemma_commit_forgets(s: StoreModel, entity: Entity)
    requires
        s.wf(),
        s.is_doomed(entity) || !s.knows(entity),
    ensures
        !s.commit().knows(entity),
        !s.commit().is_live(entity),
        s.commit().components_of(entity) is None,
{
    let keep = spared(s.removals);
    lemma_filter_records(s.live, keep, s.next_id);
    lemma_filter_records(s.spawning, keep, s.next_id);
    let a = s.live.filter(keep);
    let b = s.spawning.filter(keep);
    let after = s.commit();
    if after.is_live(entity) {
        let k = choose|k: int| 0 <= k < after.live.len() && (#[trigger] after.live[k]).entity
            == entity;
        if k < a.len() {
            assert(a[k].entity == entity);
            assert(keep(a[k]));
            assert(holds(a, entity));
        } else {
            assert(b[k - a.len()].entity == entity);
            assert(keep(b[k - a.len()]));
            assert(holds(b, entity));
        }
    }
}

/// After a commit every entity that was known and not doomed is live, with
/// the components it had.
pub proof fn lemma_commit_keeps(s: StoreModel, i: int)
    requires
        s.wf(),
        0 <= i < s.live.len(),
        !s.is_doomed(s.live[i].entity),
    ensures
        s.commit().is_live(s.live[i].entity),
        s.commit().components_of(s.live[i].entity) == Some(s.live[i].components),
{
    let keep = spared(s.removals);
    let e = s.live[i].entity;
    lemma_filter_records(s.live, keep, s.next_id);
    lemma_filter_records(s.spawning, keep, s.next_id);
    lemma_commit_wf(s);
    lemma_filter_members(s.live, keep, i);
    let a = s.live.filter(keep);
    let after = s.commit();
    assert(keep(s.live[i]));
    let k = choose|k: int| 0 <= k < a.len() && a[k] == s.live[i];
    assert(after.live[k] == s.live[i]);
    assert(after.is_live(e));
    assert(after.place_of(e) == k);
}

/// A record that passes the test is among the filtered records.
pub proof fn lemma_filter_members(records: Seq<Record>, keep: spec_fn(Record) -> bool, i: int)
    requires
        0 <= i < records.len(),
        keep(records[i]),
    ensures
        exists|k: int| 0 <= k < records.filter(keep).len() && records.filter(keep)[k] == records[i],
    decreases records.len(),
{
    reveal(Seq::filter);
    let front = records.drop_last();
    let all = records.filter(keep);
    if i < front.len() {
        lemma_filter_members(front, keep, i);
        let kept = front.filter(keep);
        let k = choose|k: int| 0 <= k < kept.len() && kept[k] == front[i];
        assert(all[k] == records[i]);
    } else {
        assert(all[all.len() - 1] == records[i]);
    }
}

/// Identifiers are never reused. The entity that a request to spawn adds is
/// none that the store knows, and none that it ever knew: its identifier is
/// the first that was never handed out.
pub proof fn lemma_identifier_is_fresh(s: StoreModel, components: Components, entity: Entity)
    requires
        s.wf(),
        s.next_id < u64::MAX,
        entity.id < s.next_id,
    ensures
        s.request_spawn(components).spawning.last().entity.id == s.next_id,
        s.request_spawn(components).spawning.last().entity != entity,
        s.request_spawn(components).next_id > s.next_id,
        forall|known: Entity| s.knows(known) ==> #[trigger] known.id < s.next_id,
{
    assert forall|known: Entity| s.knows(known) implies #[trigger] known.id < s.next_id by {
        if s.is_live(known) {
            let k = s.place_of(known);
            assert(s.live[k].entity.id < s.next_id);
        } else {
            let k = s.pending_place_of(known);
            assert(s.spawning[k].entity.id < s.next_id);
        }
    }
}

/// Deferred visibility. A request to remove an entity changes nothing that
/// a system can observe before the commit: the live entities and the queued
/// spawns stay as they were, each with all its components. After the
/// commit the entity is absent.
pub proof fn lemma_deferred_visibility(s: StoreModel, entity: Entity, reason: Reason)
    requires
        s.wf(),
    ensures
        s.request_destroy(entity, reason).live == s.live,
        s.request_destroy(entity, reason).spawning == s.spawning,
        s.request_destroy(entity, reason).components_of(entity) == s.components_of(entity),
        forall|other: Entity| #[trigger]
            s.request_destroy(entity, reason).is_live(other) == s.is_live(other),
        !s.request_destroy(entity, reason).commit().is_live(entity),
        s.request_destroy(entity, reason).commit().components_of(entity) is None,
{
    let t = s.request_destroy(entity, reason);
    lemma_request_destroy_wf(s, entity, reason);
    if s.knows(entity) && !s.is_doomed(entity) {
        assert(t.removals[s.removals.len() as int].entity == entity);
    }
    lemma_commit_forgets(t, entity);
}

/// The resolver keeps the invariant of the store, so that its queue never
/// asks twice for one entity, and it changes nothing but the queue.
pub proof fn lemma_resolved_wf(s: StoreModel, events: Seq<CollisionEvent>)
    requires
        s.wf(),
    ensures
        resolved(s, events).wf(),
        resolved(s, events).live == s.live,
        resolved(s, events).spawning == s.spawning,
        forall|entity: Entity|
            requests_for(#[trigger] resolved(s, events).removals, entity).len() <= 1,
{
    lemma_doom_all_wf(s, events.filter_map(removal_targets()), Reason::Collision);
    assert forall|entity: Entity|
        requests_for(#[trigger] resolved(s, events).removals, entity).len() <= 1 by {
        lemma_count_requests(resolved(s, events).removals, entity);
    }
}

/// Dedup under multiple contacts. Two events of one tick that both remove
/// the same entity leave exactly one request for it in the queue.
pub proof fn lemma_multi_contact_dedup(
    s: StoreModel,
    first: CollisionEvent,
    second: CollisionEvent,
    entity: Entity,
)
    requires
        s.wf(),
        s.knows(entity),
        !s.is_doomed(entity),
        removal_target(first) == Some(entity),
        removal_target(second) == Some(entity),
    ensures
        resolved(s, seq![first, second]).removals == s.removals.push(
            RemovalRequest { entity, reason: Reason::Collision },
        ),
        requests_for(resolved(s, seq![first, second]).removals, entity).len() == 1,
{
    let events = seq![first, second];
    let pick = removal_targets();
    events.lemma_filter_map_take_succ(pick, 0);
    events.lemma_filter_map_take_succ(pick, 1);
    assert(events.take(0).filter_map(pick) =~= Seq::<Entity>::empty());
    assert(events.take(2) =~= events);
    let targets = events.filter_map(pick);
    assert(targets =~= seq![entity, entity]);
    assert(targets.drop_last() =~= seq![entity]);
    assert(seq![entity].drop_last() =~= Seq::<Entity>::empty());
    let one = s.request_destroy(entity, Reason::Collision);
    assert(Seq::<Entity>::empty().fold_left(
        s,
        |s: StoreModel, e: Entity| s.request_destroy(e, Reason::Collision),
    ) == s);
    assert(s.doom_all(seq![entity], Reason::Collision) == one) by {
        reveal_with_fuel(Seq::fold_left, 2);
    }
    lemma_second_request_changes_nothing(s, entity, Reason::Collision, Reason::Collision);
    assert(s.doom_all(targets, Reason::Collision) == one) by {
        reveal_with_fuel(Seq::fold_left, 3);
    }
    lemma_request_destroy_wf(s, entity, Reason::Collision);
    lemma_count_requests(one.removals, entity);
    assert(one.removals[s.removals.len() as int].entity == entity);
}

/// A projectile that begins to touch an enemy is the target of the event,
/// whichever side of the event it is on. A contact that ends has no target.
pub proof fn lemma_projectile_hit_target(projectile: Entity, enemy: Entity)
    ensures
        removal_target(
            CollisionEvent::Started(
                CollisionData { entity: projectile, layers: projectile_layers() },
                CollisionData { entity: enemy, layers: enemy_layers() },
            ),
        ) == Some(projectile),
        removal_target(
            CollisionEvent::Started(
                CollisionData { entity: enemy, layers: enemy_layers() },
                CollisionData { entity: projectile, layers: projectile_layers() },
            ),
        ) == Some(projectile),
        removal_target(
            CollisionEvent::Stopped(
                CollisionData { entity: projectile, layers: projectile_layers() },
                CollisionData { entity: enemy, layers: enemy_layers() },
            ),
        ) is None,
{
    assert(4u32 & 7u32 != 0 && 1u32 & 1u32 != 0 && 4u32 & 4u32 != 0 && 1u32 & 4u32 == 0) by (
        bit_vector
    );
}

/// The layers of a projectile.
pub open spec fn projectile_layers() -> CollisionLayers {
    CollisionLayers { groups: 4u32, masks: 1u32 }
}

/// The layers of an enemy.
pub open spec fn enemy_layers() -> CollisionLayers {
    CollisionLayers { groups: 1u32, masks: 7u32 }
}

/// Contacts that the layers do not allow remove nothing: two projectiles
/// that touch, and a projectile that touches the player.
pub proof fn lemma_cross_layer_contact_ignored(a: Entity, b: Entity)
    ensures
        removal_target(
            CollisionEvent::Started(
                CollisionData { entity: a, layers: projectile_layers() },
                CollisionData { entity: b, layers: projectile_layers() },
            ),
        ) is None,
        removal_target(
            CollisionEvent::Started(
                CollisionData { entity: a, layers: projectile_layers() },
                CollisionData { entity: b, layers: CollisionLayers { groups: 2u32, masks: 1u32 } },
            ),
        ) is None,
        removal_target(
            CollisionEvent::Started(
                CollisionData { entity: a, layers: CollisionLayers { groups: 2u32, masks: 1u32 } },
                CollisionData { entity: b, layers: enemy_layers() },
            ),
        ) is None,
{
    assert(4u32 & 1u32 == 0 && 2u32 & 1u32 == 0 && 2u32 & 7u32 != 0 && 1u32 & 1u32 != 0 && 2u32
        & 4u32 == 0 && 1u32 & 4u32 == 0) by (bit_vector);
}

/// Normalization safety. A direction of length zero moves nothing and
/// fires nothing: keys that cancel out leave the store as it was; an enemy
/// that is where every player is keeps its velocity; and a player that is
/// where its target is fires no projectile.
pub proof fn lemma_zero_direction_changes_nothing(
    s: StoreModel,
    keys: DirectionKeys,
    elapsed: u32,
    r: Record,
    players: Seq<Vec2>,
)
    ensures
        key_direction(keys) == (0int, 0int) ==> movement(s, keys, elapsed) == s,
        aim(r.components.body.position, r.components.body.position, 1) is None,
        (forall|i: int| 0 <= i < players.len() ==> players[i] == r.components.body.position)
            ==> homed(r, players) == r,
        shot(r, elapsed, Some(r.components.body.position)) is None,
{
    if key_direction(keys) == (0int, 0int) {
        assert(player_step(keys, elapsed) == (0int, 0int));
        assert(s.live.map_values(moving((0int, 0int))) =~= s.live);
    }
    if forall|i: int| 0 <= i < players.len() ==> players[i] == r.components.body.position {
        lemma_no_other(players, r.components.body.position);
    }
}

/// Where every point is `here`, none of them is another.
proof fn lemma_no_other(points: Seq<Vec2>, here: Vec2)
    requires
        forall|i: int| 0 <= i < points.len() ==> points[i] == here,
    ensures
        last_other(points, here) is None,
    decreases points.len(),
{
    if points.len() > 0 {
        lemma_no_other(points.drop_last(), here);
    }
}

/// The expiry boundary. A projectile that has aged through some ticks has
/// as much lifetime left as it had, less the time of those ticks, and never
/// less than nothing. So the tick that removes it is the first at whose end
/// the time that has passed reaches its lifetime, and none before.
pub proof fn lemma_expiry_boundary(r: Record, ticks: Seq<u32>, next: u32)
    requires
        r.components.role is Projectile,
    ensures
        aged_through(r, ticks).components.role is Projectile,
        aged_through(r, ticks).components.role->remaining == (if r.components.role->remaining
            > total(ticks) {
            r.components.role->remaining - total(ticks)
        } else {
            0
        }),
        expired(aged_through(r, ticks), next) is Some <==> r.components.role->remaining <= total(
            ticks,
        ) + next,
    decreases ticks.len(),
{
    if ticks.len() > 0 {
        lemma_expiry_boundary(r, ticks.drop_last(), ticks.last());
        lemma_total_nonnegative(ticks.drop_last());
    }
    lemma_total_nonnegative(ticks);
}

/// A sum of ticks is not negative.
proof fn lemma_total_nonnegative(ticks: Seq<u32>)
    ensures
        total(ticks) >= 0,
    decreases ticks.len(),
{
    if ticks.len() > 0 {
        lemma_total_nonnegative(ticks.drop_last());
    }
}

} // verus!
