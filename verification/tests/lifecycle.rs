use arena_shooter::entity::{Components, Entity, Reason, RemovalRequest, Role};
use arena_shooter::store::EntityStore;
use arena_shooter::vector::Vec2;

fn store_with_pair() -> (EntityStore, Entity, Entity) {
    let mut store = EntityStore::new();
    let player = store.request_spawn(Components::player(Vec2::new(0, 0))).unwrap();
    let enemy = store.request_spawn(Components::enemy(Vec2::new(600_000, 0))).unwrap();
    store.commit();
    (store, player, enemy)
}

#[test]
fn new_store_is_empty() {
    let store = EntityStore::new();
    assert_eq!(store.len(), 0);
    assert!(store.records().is_empty());
    assert!(store.pending_spawns().is_empty());
    assert!(store.pending_removals().is_empty());
    assert_eq!(store.record(0), None);
}

#[test]
fn identifiers_are_handed_out_in_order() {
    let mut store = EntityStore::new();
    let a = store.request_spawn(Components::enemy(Vec2::new(1, 2))).unwrap();
    let b = store.request_spawn(Components::enemy(Vec2::new(3, 4))).unwrap();
    assert_eq!(a, Entity::from_bits(0));
    assert_eq!(b, Entity::from_bits(1));
    assert_eq!(a.to_bits(), 0);
    assert_eq!(b.to_bits(), 1);
    store.request_destroy(a, Reason::Expired);
    store.commit();
    let c = store.request_spawn(Components::enemy(Vec2::new(5, 6))).unwrap();
    assert_eq!(c, Entity::from_bits(2));
}

#[test]
fn spawn_is_provisional_until_commit() {
    let mut store = EntityStore::new();
    let e = store.request_spawn(Components::enemy(Vec2::new(7, 8))).unwrap();
    assert!(!store.contains(e));
    assert_eq!(store.get(e), None);
    assert_eq!(store.len(), 0);
    assert_eq!(store.pending_spawns().len(), 1);
    assert_eq!(store.pending_spawns()[0].entity, e);
    let report = store.commit();
    assert_eq!(report.spawned, vec![e]);
    assert!(report.destroyed.is_empty());
    assert!(store.contains(e));
    assert_eq!(store.get(e), Some(Components::enemy(Vec2::new(7, 8))));
    assert!(store.pending_spawns().is_empty());
}

#[test]
fn destruction_is_idempotent() {
    let (mut store, player, enemy) = store_with_pair();
    assert!(store.request_destroy(enemy, Reason::Collision));
    assert!(!store.request_destroy(enemy, Reason::Collision));
    assert!(!store.request_destroy(enemy, Reason::Expired));
    assert_eq!(
        store.pending_removals(),
        vec![RemovalRequest { entity: enemy, reason: Reason::Collision }]
    );
    assert!(store.is_doomed(enemy));
    assert!(!store.is_doomed(player));
    let report = store.commit();
    assert_eq!(report.destroyed, vec![enemy]);
    assert!(!store.contains(enemy));
    assert_eq!(store.get(enemy), None);
    assert!(store.contains(player));
    assert_eq!(store.len(), 1);
    assert!(store.pending_removals().is_empty());
}

#[test]
fn destruction_is_deferred_to_commit() {
    let (mut store, player, enemy) = store_with_pair();
    let before = store.records();
    assert!(store.request_destroy(player, Reason::Expired));
    assert_eq!(store.records(), before);
    assert!(store.contains(player));
    assert_eq!(store.get(player), Some(Components::player(Vec2::new(0, 0))));
    assert_eq!(store.index_of(player), Some(0));
    store.commit();
    assert_eq!(store.get(player), None);
    assert_eq!(store.index_of(player), None);
    assert_eq!(store.index_of(enemy), Some(0));
    assert_eq!(store.get(enemy), Some(Components::enemy(Vec2::new(600_000, 0))));
}

#[test]
fn stale_requests_are_ignored() {
    let (mut store, _player, enemy) = store_with_pair();
    assert!(!store.request_destroy(Entity::from_bits(99), Reason::Collision));
    assert!(store.pending_removals().is_empty());
    assert!(store.request_destroy(enemy, Reason::Collision));
    store.commit();
    assert!(!store.request_destroy(enemy, Reason::Collision));
    assert!(store.pending_removals().is_empty());
    let report = store.commit();
    assert!(report.destroyed.is_empty());
    assert!(report.spawned.is_empty());
    assert_eq!(store.len(), 1);
}

#[test]
fn spawn_removed_in_the_same_tick_never_lives() {
    let (mut store, player, enemy) = store_with_pair();
    let shot = store
        .request_spawn(Components::projectile(Vec2::new(0, 0), Vec2::new(300_000, 0)))
        .unwrap();
    let kept = store
        .request_spawn(Components::projectile(Vec2::new(0, 0), Vec2::new(0, 300_000)))
        .unwrap();
    assert!(store.request_destroy(shot, Reason::Collision));
    let report = store.commit();
    assert_eq!(report.destroyed, vec![shot]);
    assert_eq!(report.spawned, vec![kept]);
    assert!(!store.contains(shot));
    assert!(store.contains(kept));
    let live: Vec<Entity> = store.records().iter().map(|r| r.entity).collect();
    assert_eq!(live, vec![player, enemy, kept]);
}

#[test]
fn commit_keeps_order_and_components() {
    let mut store = EntityStore::new();
    let a = store.request_spawn(Components::enemy(Vec2::new(1, 1))).unwrap();
    let b = store.request_spawn(Components::player(Vec2::new(2, 2))).unwrap();
    let c = store.request_spawn(Components::enemy(Vec2::new(3, 3))).unwrap();
    store.commit();
    assert!(store.request_destroy(b, Reason::Expired));
    assert!(store.request_destroy(a, Reason::Collision));
    let d = store.request_spawn(Components::enemy(Vec2::new(4, 4))).unwrap();
    let report = store.commit();
    assert_eq!(report.destroyed, vec![b, a]);
    assert_eq!(report.spawned, vec![d]);
    let records = store.records();
    assert_eq!(records.len(), 2);
    assert_eq!(records[0].entity, c);
    assert_eq!(records[0].components, Components::enemy(Vec2::new(3, 3)));
    assert_eq!(records[1].entity, d);
    assert_eq!(records[1].components, Components::enemy(Vec2::new(4, 4)));
    assert_eq!(store.record(1), Some(records[1]));
    assert_eq!(store.record(2), None);
}

#[test]
fn set_position_moves_only_the_named_entity() {
    let (mut store, player, enemy) = store_with_pair();
    assert!(store.set_position(enemy, Vec2::new(-5, 9)));
    assert_eq!(store.get(enemy).unwrap().body.position, Vec2::new(-5, 9));
    assert_eq!(store.get(enemy).unwrap().role, Role::Enemy);
    assert_eq!(store.get(player), Some(Components::player(Vec2::new(0, 0))));
    assert!(!store.set_position(Entity::from_bits(42), Vec2::new(1, 1)));
    assert_eq!(store.len(), 2);
}

#[test]
fn set_components_replaces_one_record() {
    let (mut store, player, enemy) = store_with_pair();
    let index = store.index_of(enemy).unwrap();
    let mut components = store.get(enemy).unwrap();
    components.velocity = Vec2::new(10, -10);
    assert!(store.set_components(index, components));
    assert_eq!(store.get(enemy), Some(components));
    assert_eq!(store.record(index).unwrap().entity, enemy);
    assert_eq!(store.get(player), Some(Components::player(Vec2::new(0, 0))));
    let before = store.records();
    assert!(!store.set_components(2, components));
    assert!(!store.set_components(usize::MAX, components));
    assert_eq!(store.records(), before);
}

#[test]
fn attach_builds_up_a_queued_spawn() {
    let (mut store, player, _enemy) = store_with_pair();
    let shot = store
        .request_spawn(Components::projectile(Vec2::new(0, 0), Vec2::new(1, 0)))
        .unwrap();
    let better = Components::projectile(Vec2::new(9, 9), Vec2::new(0, 300_000));
    assert!(store.attach(shot, better));
    assert_eq!(store.pending_spawns().len(), 1);
    assert_eq!(store.pending_spawns()[0].entity, shot);
    assert_eq!(store.pending_spawns()[0].components, better);
    assert!(!store.attach(player, better));
    assert!(!store.attach(Entity::from_bits(64), better));
    assert_eq!(store.get(player), Some(Components::player(Vec2::new(0, 0))));
    store.commit();
    assert_eq!(store.get(shot), Some(better));
    assert!(!store.attach(shot, Components::enemy(Vec2::new(0, 0))));
    assert_eq!(store.get(shot), Some(better));
}

#[test]
fn batches_go_through_the_same_queues() {
    let (mut store, player, enemy) = store_with_pair();
    store.spawn_each(&vec![
        Components::projectile(Vec2::new(0, 0), Vec2::new(1, 0)),
        Components::projectile(Vec2::new(0, 0), Vec2::new(0, 1)),
    ]);
    assert_eq!(store.pending_spawns().len(), 2);
    assert_eq!(store.pending_spawns()[0].entity, Entity::from_bits(2));
    assert_eq!(store.pending_spawns()[1].entity, Entity::from_bits(3));
    store.doom_each(&vec![enemy, Entity::from_bits(77), enemy, player], Reason::Expired);
    assert_eq!(
        store.pending_removals(),
        vec![
            RemovalRequest { entity: enemy, reason: Reason::Expired },
            RemovalRequest { entity: player, reason: Reason::Expired },
        ]
    );
    store.commit();
    assert_eq!(store.len(), 2);
    assert!(store.contains(Entity::from_bits(2)));
    assert!(store.contains(Entity::from_bits(3)));
}
