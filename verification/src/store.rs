//! The entity store and its lifecycle manager: structural changes are queued
//! during a tick and applied together by `commit`.

use crate::entity::{Components, Entity, Reason, Record, RemovalRequest, SpatialBody};
use crate::vector::Vec2;
use vstd::prelude::*;

verus! {

/// What a store holds, as mathematics: the live entities in the order in
/// which they became live, the spawns and removals queued since the last
/// commit, and the next identifier to hand out.
pub struct StoreModel {
    pub live: Seq<Record>,
    pub spawning: Seq<Record>,
    pub removals: Seq<RemovalRequest>,
    pub next_id: nat,
}

/// Whether one of `records` belongs to `entity`.
pub open spec fn holds(records: Seq<Record>, entity: Entity) -> bool {
    exists|i: int| 0 <= i < records.len() && (#[trigger] records[i]).entity == entity
}

/// Whether one of `removals` asks for `entity`.
pub open spec fn queued(removals: Seq<RemovalRequest>, entity: Entity) -> bool {
    exists|i: int| 0 <= i < removals.len() && (#[trigger] removals[i]).entity == entity
}

/// No two of `records` belong to the same entity.
pub open spec fn distinct(records: Seq<Record>) -> bool {
    forall|i: int, j: int|
        0 <= i < j < records.len() ==> (#[trigger] records[i]).entity != (
        #[trigger] records[j]).entity
}

/// Every one of `records` has an identifier below `next_id`.
pub open spec fn valid(records: Seq<Record>, next_id: nat) -> bool {
    forall|i: int| 0 <= i < records.len() ==> (#[trigger] records[i]).entity.id < next_id
}

/// `r` at `position`, with everything else as it was.
pub open spec fn placed(r: Record, position: Vec2) -> Record {
    Record {
        entity: r.entity,
        components: Components {
            body: SpatialBody { position, ..r.components.body },
            ..r.components
        },
    }
}

/// The test that a record passes when no removal is queued for its entity.
pub open spec fn spared(removals: Seq<RemovalRequest>) -> spec_fn(Record) -> bool {
    |r: Record| !queued(removals, r.entity)
}

/// The entity of a record.
pub open spec fn entity_of() -> spec_fn(Record) -> Entity {
    |r: Record| r.entity
}

/// The entity of a removal request.
pub open spec fn target_of() -> spec_fn(RemovalRequest) -> Entity {
    |q: RemovalRequest| q.entity
}

impl StoreModel {
    /// The store that holds nothing and has handed out no identifier.
    pub open spec fn empty() -> StoreModel {
        StoreModel {
            live: Seq::empty(),
            spawning: Seq::empty(),
            removals: Seq::empty(),
            next_id: 0,
        }
    }

    /// Whether `entity` is live: created by a commit and not yet removed by
    /// one.
    pub open spec fn is_live(self, entity: Entity) -> bool {
        holds(self.live, entity)
    }

    /// Whether `entity` is a queued spawn.
    pub open spec fn is_spawning(self, entity: Entity) -> bool {
        holds(self.spawning, entity)
    }

    /// Whether the store knows `entity`, live or as a queued spawn.
    pub open spec fn knows(self, entity: Entity) -> bool {
        self.is_live(entity) || self.is_spawning(entity)
    }

    /// Whether a removal of `entity` is queued.
    pub open spec fn is_doomed(self, entity: Entity) -> bool {
        queued(self.removals, entity)
    }

    /// The place of `entity` among the live records, where it is live.
    pub open spec fn place_of(self, entity: Entity) -> int {
        choose|i: int| 0 <= i < self.live.len() && (#[trigger] self.live[i]).entity == entity
    }

    /// The components of `entity` where it is live.
    pub open spec fn components_of(self, entity: Entity) -> Option<Components> {
        if self.is_live(entity) {
            Some(self.live[self.place_of(entity)].components)
        } else {
            None
        }
    }

    /// The store with `components` on the live record at `index`; the same
    /// store where there is no such record.
    pub open spec fn replace(self, index: int, components: Components) -> StoreModel {
        if 0 <= index < self.live.len() {
            StoreModel {
                live: self.live.update(
                    index,
                    Record { entity: self.live[index].entity, components },
                ),
                ..self
            }
        } else {
            self
        }
    }

    /// The place of `entity` among the queued spawns, where it is one.
    pub open spec fn pending_place_of(self, entity: Entity) -> int {
        choose|i: int|
            0 <= i < self.spawning.len() && (#[trigger] self.spawning[i]).entity == entity
    }

    /// The store with `components` on the queued spawn `entity`; the same
    /// store where `entity` is no queued spawn.
    pub open spec fn attach(self, entity: Entity, components: Components) -> StoreModel {
        if self.is_spawning(entity) {
            StoreModel {
                spawning: self.spawning.update(
                    self.pending_place_of(entity),
                    Record { entity, components },
                ),
                ..self
            }
        } else {
            self
        }
    }

    /// The store with the live `entity` at `position`; the same store where
    /// `entity` is not live.
    pub open spec fn reposition(self, entity: Entity, position: Vec2) -> StoreModel {
        if self.is_live(entity) {
            StoreModel {
                live: self.live.update(
                    self.place_of(entity),
                    placed(self.live[self.place_of(entity)], position),
                ),
                ..self
            }
        } else {
            self
        }
    }

    /// The invariant of a store: every entity occurs once, with an
    /// identifier that was handed out; the removal queue names each entity
    /// at most once, and only entities that the store knows.
    pub open spec fn wf(self) -> bool {
        &&& self.next_id <= u64::MAX
        &&& distinct(self.live)
        &&& distinct(self.spawning)
        &&& forall|i: int, j: int|
            0 <= i < self.live.len() && 0 <= j < self.spawning.len() ==> (
            #[trigger] self.live[i]).entity != (#[trigger] self.spawning[j]).entity
        &&& valid(self.live, self.next_id)
        &&& valid(self.spawning, self.next_id)
        &&& forall|i: int, j: int|
            0 <= i < j < self.removals.len() ==> (#[trigger] self.removals[i]).entity != (
            #[trigger] self.removals[j]).entity
        &&& forall|i: int|
            0 <= i < self.removals.len() ==> self.knows((#[trigger] self.removals[i]).entity)
    }

    /// The store after a request to remove `entity`: the request joins the
    /// queue where the store knows the entity and no removal of it is queued
    /// yet; otherwise nothing changes.
    pub open spec fn request_destroy(self, entity: Entity, reason: Reason) -> StoreModel {
        if self.knows(entity) && !self.is_doomed(entity) {
            StoreModel { removals: self.removals.push(RemovalRequest { entity, reason }), ..self }
        } else {
            self
        }
    }

    /// The store after a request to spawn an entity with `components`: the
    /// spawn joins the queue under the next identifier, unless the
    /// identifiers are used up.
    pub open spec fn request_spawn(self, components: Components) -> StoreModel {
        if self.next_id < u64::MAX {
            StoreModel {
                spawning: self.spawning.push(
                    Record { entity: Entity { id: self.next_id as u64 }, components },
                ),
                next_id: self.next_id + 1,
                ..self
            }
        } else {
            self
        }
    }

    /// The store after requests to remove each of `targets` in turn.
    pub open spec fn doom_all(self, targets: Seq<Entity>, reason: Reason) -> StoreModel {
        targets.fold_left(self, |s: StoreModel, e: Entity| s.request_destroy(e, reason))
    }

    /// The store after requests to spawn each of `batch` in turn.
    pub open spec fn spawn_all(self, batch: Seq<Components>) -> StoreModel {
        batch.fold_left(self, |s: StoreModel, c: Components| s.request_spawn(c))
    }

    /// The store after a commit: the live entities and the queued spawns,
    /// in that order, without those whose removal was queued; both queues
    /// are empty.
    pub open spec fn commit(self) -> StoreModel {
        StoreModel {
            live: self.live.filter(spared(self.removals)) + self.spawning.filter(
                spared(self.removals),
            ),
            spawning: Seq::empty(),
            removals: Seq::empty(),
            next_id: self.next_id,
        }
    }
}

/// The entity store. It owns every entity and is the only place where
/// entities are created and removed.
pub struct EntityStore {
    live: Vec<Record>,
    spawning: Vec<Record>,
    removals: Vec<RemovalRequest>,
    next_id: u64,
}

/// What one commit did.
pub struct CommitReport {
    /// The entities that were removed, in the order of the requests.
    pub destroyed: Vec<Entity>,
    /// The entities that became live, in the order of the requests.
    pub spawned: Vec<Entity>,
}

impl View for EntityStore {
    type V = StoreModel;

    closed spec fn view(&self) -> StoreModel {
        StoreModel {
            live: self.live@,
            spawning: self.spawning@,
            removals: self.removals@,
            next_id: self.next_id as nat,
        }
    }
}

/// The index of the first of `records` that belongs to `entity`.
fn find_record(records: &Vec<Record>, entity: Entity) -> (r: Option<usize>)
    ensures
        r matches Some(i) ==> i < records.len() && records[i as int].entity == entity,
        r is None ==> !holds(records@, entity),
        r is Some <==> holds(records@, entity),
{
    let mut i: usize = 0;
    while i < records.len()
        invariant
            i <= records.len(),
            forall|k: int| 0 <= k < i ==> (#[trigger] records[k]).entity != entity,
        decreases records.len() - i,
    {
        if records[i].entity.id == entity.id {
            return Some(i);
        }
        i += 1;
    }
    None
}

/// Whether one of `removals` asks for `entity`.
fn find_request(removals: &Vec<RemovalRequest>, entity: Entity) -> (r: bool)
    ensures
        r == queued(removals@, entity),
{
    let mut i: usize = 0;
    while i < removals.len()
        invariant
            i <= removals.len(),
            forall|k: int| 0 <= k < i ==> (#[trigger] removals[k]).entity != entity,
        decreases removals.len() - i,
    {
        if removals[i].entity.id == entity.id {
            return true;
        }
        i += 1;
    }
    false
}

/// Copies the records among `source` that `removals` spare to the end of
/// `kept` and their entities to the end of `names`.
fn keep_spared(
    source: &Vec<Record>,
    removals: &Vec<RemovalRequest>,
    kept: &mut Vec<Record>,
    names: &mut Vec<Entity>,
)
    ensures
        final(kept)@ == old(kept)@ + source@.filter(spared(removals@)),
        final(names)@ == old(names)@ + source@.filter(spared(removals@)).map_values(entity_of()),
{
    let ghost keep = spared(removals@);
    let ghost kept0 = kept@;
    let ghost names0 = names@;
    let mut i: usize = 0;
    proof {
        reveal(Seq::filter);
        assert(source@.take(0).filter(keep) =~= Seq::<Record>::empty());
        assert(kept@ =~= kept0 + source@.take(0).filter(keep));
        assert(names@ =~= names0 + source@.take(0).filter(keep).map_values(entity_of()));
    }
    while i < source.len()
        invariant
            i <= source.len(),
            keep == spared(removals@),
            kept@ == kept0 + source@.take(i as int).filter(keep),
            names@ == names0 + source@.take(i as int).filter(keep).map_values(entity_of()),
        decreases source.len() - i,
    {
        let r = source[i];
        let doomed = find_request(removals, r.entity);
        proof {
            assert(source@.take(i + 1) =~= source@.take(i as int).push(r));
            source@.take(i as int).lemma_filter_push(r, keep);
            assert(keep(r) == !doomed);
        }
        if !doomed {
            kept.push(r);
            names.push(r.entity);
            proof {
                let before = source@.take(i as int).filter(keep);
                assert(kept@ =~= kept0 + before.push(r));
                assert(names@ =~= names0 + before.push(r).map_values(entity_of()));
            }
        }
        i += 1;
    }
    proof {
        assert(source@.take(source.len() as int) =~= source@);
    }
}

impl EntityStore {
    /// What holds of every store at every moment: the invariant of its
    /// view.
    #[verifier::type_invariant]
    pub open spec fn inv(&self) -> bool {
        self@.wf()
    }

    /// Empties the store and hands out what it held, so that the parts can
    /// be changed and put together again.
    fn take_apart(&mut self) -> (parts: (Vec<Record>, Vec<Record>, Vec<RemovalRequest>, u64))
        ensures
            parts.0@ == old(self)@.live,
            parts.1@ == old(self)@.spawning,
            parts.2@ == old(self)@.removals,
            parts.3 == old(self)@.next_id,
    {
        let mut whole = EntityStore::new();
        std::mem::swap(self, &mut whole);
        let EntityStore { live, spawning, removals, next_id } = whole;
        (live, spawning, removals, next_id)
    }

    /// A store that holds nothing.
    pub fn new() -> (r: EntityStore)
        ensures
            r@ == StoreModel::empty(),
            r@.wf(),
    {
        EntityStore { live: Vec::new(), spawning: Vec::new(), removals: Vec::new(), next_id: 0 }
    }

    /// The number of live entities.
    pub fn len(&self) -> (r: usize)
        ensures
            r == self@.live.len(),
            self@.wf(),
    {
        proof {
            use_type_invariant(self);
        }
        self.live.len()
    }

    /// The live record at `index`, or `None` past the end.
    pub fn record(&self, index: usize) -> (r: Option<Record>)
        ensures
            index < self@.live.len() ==> r == Some(self@.live[index as int]),
            index >= self@.live.len() ==> r is None,
    {
        if index < self.live.len() {
            Some(self.live[index])
        } else {
            None
        }
    }

    /// The live records, in order: what there is to draw after a commit.
    pub fn records(&self) -> (r: Vec<Record>)
        ensures
            r@ == self@.live,
    {
        self.live.clone()
    }

    /// The queued spawns, in order.
    pub fn pending_spawns(&self) -> (r: Vec<Record>)
        ensures
            r@ == self@.spawning,
    {
        self.spawning.clone()
    }

    /// The queued removals, in order.
    pub fn pending_removals(&self) -> (r: Vec<RemovalRequest>)
        ensures
            r@ == self@.removals,
    {
        self.removals.clone()
    }

    /// The place of `entity` among the live records.
    pub fn index_of(&self, entity: Entity) -> (r: Option<usize>)
        ensures
            r is Some <==> self@.is_live(entity),
            r matches Some(i) ==> i == self@.place_of(entity) && i < self@.live.len()
                && self@.live[i as int].entity == entity,
    {
        proof {
            use_type_invariant(self);
        }
        find_record(&self.live, entity)
    }

    /// Whether `entity` is live.
    pub fn contains(&self, entity: Entity) -> (r: bool)
        ensures
            r == self@.is_live(entity),
    {
        find_record(&self.live, entity).is_some()
    }

    /// Whether a removal of `entity` is queued.
    pub fn is_doomed(&self, entity: Entity) -> (r: bool)
        ensures
            r == self@.is_doomed(entity),
    {
        find_request(&self.removals, entity)
    }

    /// The components of `entity`, or `None` where it is not live.
    pub fn get(&self, entity: Entity) -> (r: Option<Components>)
        ensures
            r == self@.components_of(entity),
            r is Some <==> self@.is_live(entity),
    {
        proof {
            use_type_invariant(self);
        }
        match find_record(&self.live, entity) {
            Some(i) => {
                proof {
                    assert(self@.place_of(entity) == i);
                }
                Some(self.live[i].components)
            },
            None => None,
        }
    }

    /// Replaces the components of the live record at `index` and says
    /// whether there is such a record. The entity stays, and so does
    /// everything else.
    pub fn set_components(&mut self, index: usize, components: Components) -> (found: bool)
        ensures
            final(self)@ == old(self)@.replace(index as int, components),
            final(self)@.wf(),
            found == (index < old(self)@.live.len()),
    {
        proof {
            use_type_invariant(&*self);
        }
        if index >= self.live.len() {
            return false;
        }
        let entity = self.live[index].entity;
        proof {
            lemma_replace_wf(self@, index as int, components);
        }
        let (mut live, spawning, removals, next_id) = self.take_apart();
        live.set(index, Record { entity, components });
        *self = EntityStore { live, spawning, removals, next_id };
        true
    }

    /// Puts the live `entity` at `position`, as the physics engine reports
    /// it. Says whether the entity is live; nothing changes where it is not.
    pub fn set_position(&mut self, entity: Entity, position: Vec2) -> (found: bool)
        ensures
            final(self)@ == old(self)@.reposition(entity, position),
            final(self)@.wf(),
            found == old(self)@.is_live(entity),
    {
        proof {
            use_type_invariant(&*self);
        }
        match find_record(&self.live, entity) {
            Some(i) => {
                proof {
                    assert(self@.place_of(entity) == i);
                }
                let mut components = self.live[i].components;
                components.body.position = position;
                self.set_components(i, components);
                true
            },
            None => false,
        }
    }

    /// Queues the removal of `entity`. The entity stays live, with all its
    /// components, until the next commit. A second request for the same
    /// entity, and a request for an entity that the store does not know,
    /// change nothing.
    pub fn request_destroy(&mut self, entity: Entity, reason: Reason) -> (accepted: bool)
        ensures
            final(self)@ == old(self)@.request_destroy(entity, reason),
            final(self)@.wf(),
            accepted == (old(self)@.knows(entity) && !old(self)@.is_doomed(entity)),
            final(self)@.live == old(self)@.live,
            final(self)@.spawning == old(self)@.spawning,
            final(self)@.next_id == old(self)@.next_id,
    {
        proof {
            use_type_invariant(&*self);
        }
        let known = find_record(&self.live, entity).is_some() || find_record(
            &self.spawning,
            entity,
        ).is_some();
        if !known || find_request(&self.removals, entity) {
            return false;
        }
        proof {
            lemma_request_destroy_wf(self@, entity, reason);
        }
        let (live, spawning, mut removals, next_id) = self.take_apart();
        removals.push(RemovalRequest { entity, reason });
        *self = EntityStore { live, spawning, removals, next_id };
        true
    }

    /// Queues the spawn of an entity with `components` and returns its
    /// identifier, which becomes live at the next commit. Returns `None`,
    /// and changes nothing, where the identifiers are used up.
    pub fn request_spawn(&mut self, components: Components) -> (r: Option<Entity>)
        ensures
            final(self)@ == old(self)@.request_spawn(components),
            final(self)@.wf(),
            r is Some <==> old(self)@.next_id < u64::MAX,
            r matches Some(e) ==> e.id == old(self)@.next_id && final(self)@.is_spawning(e)
                && !old(self)@.knows(e),
            final(self)@.live == old(self)@.live,
            final(self)@.removals == old(self)@.removals,
    {
        proof {
            use_type_invariant(&*self);
        }
        if self.next_id == u64::MAX {
            return None;
        }
        let entity = Entity { id: self.next_id };
        proof {
            lemma_request_spawn_wf(self@, components);
            assert(!self@.knows(entity)) by {
                if self@.is_live(entity) {
                    let k = self@.place_of(entity);
                    assert(self@.live[k].entity.id < self@.next_id);
                }
                if self@.is_spawning(entity) {
                    let k = choose|k: int|
                        0 <= k < self@.spawning.len() && (#[trigger] self@.spawning[k]).entity
                            == entity;
                    assert(self@.spawning[k].entity.id < self@.next_id);
                }
            }
        }
        let (live, mut spawning, removals, next_id) = self.take_apart();
        spawning.push(Record { entity, components });
        *self = EntityStore { live, spawning, removals, next_id: next_id + 1 };
        proof {
            assert(self@.spawning[old(self)@.spawning.len() as int].entity == entity);
        }
        Some(entity)
    }

    /// Replaces the components of the queued spawn `entity`, so that a
    /// system can go on building an entity it has just asked for. Says
    /// whether `entity` is a queued spawn; nothing changes where it is not.
    pub fn attach(&mut self, entity: Entity, components: Components) -> (found: bool)
        ensures
            final(self)@ == old(self)@.attach(entity, components),
            final(self)@.wf(),
            found == old(self)@.is_spawning(entity),
    {
        proof {
            use_type_invariant(&*self);
        }
        match find_record(&self.spawning, entity) {
            Some(i) => {
                proof {
                    assert(self@.pending_place_of(entity) == i);
                    lemma_attach_wf(self@, entity, components);
                }
                let (live, mut spawning, removals, next_id) = self.take_apart();
                spawning.set(i, Record { entity, components });
                *self = EntityStore { live, spawning, removals, next_id };
                true
            },
            None => false,
        }
    }

    /// Queues the removal of each of `targets` in turn.
    pub fn doom_each(&mut self, targets: &Vec<Entity>, reason: Reason)
        ensures
            final(self)@ == old(self)@.doom_all(targets@, reason),
            final(self)@.wf(),
            final(self)@.live == old(self)@.live,
            final(self)@.spawning == old(self)@.spawning,
            final(self)@.next_id == old(self)@.next_id,
    {
        proof {
            use_type_invariant(&*self);
        }
        let mut i: usize = 0;
        while i < targets.len()
            invariant
                i <= targets.len(),
                self@.wf(),
                self@ == old(self)@.doom_all(targets@.take(i as int), reason),
                self@.live == old(self)@.live,
                self@.spawning == old(self)@.spawning,
                self@.next_id == old(self)@.next_id,
            decreases targets.len() - i,
        {
            proof {
                assert(targets@.take(i + 1).drop_last() =~= targets@.take(i as int));
            }
            self.request_destroy(targets[i], reason);
            i += 1;
        }
        proof {
            assert(targets@.take(targets.len() as int) =~= targets@);
        }
    }

    /// Queues the spawn of each of `batch` in turn.
    pub fn spawn_each(&mut self, batch: &Vec<Components>)
        ensures
            final(self)@ == old(self)@.spawn_all(batch@),
            final(self)@.wf(),
            final(self)@.live == old(self)@.live,
            final(self)@.removals == old(self)@.removals,
    {
        proof {
            use_type_invariant(&*self);
        }
        let mut i: usize = 0;
        while i < batch.len()
            invariant
                i <= batch.len(),
                self@.wf(),
                self@ == old(self)@.spawn_all(batch@.take(i as int)),
                self@.live == old(self)@.live,
                self@.removals == old(self)@.removals,
            decreases batch.len() - i,
        {
            proof {
                assert(batch@.take(i + 1).drop_last() =~= batch@.take(i as int));
            }
            self.request_spawn(batch[i]);
            i += 1;
        }
        proof {
            assert(batch@.take(batch.len() as int) =~= batch@);
        }
    }

    /// Applies every queued change in one step: the entities whose removal
    /// was queued are gone, the queued spawns that were not removed in the
    /// same tick are live, and both queues are empty.
    pub fn commit(&mut self) -> (report: CommitReport)
        ensures
            final(self)@ == old(self)@.commit(),
            final(self)@.wf(),
            report.destroyed@ == old(self)@.removals.map_values(target_of()),
            report.spawned@ == old(self)@.spawning.filter(spared(old(self)@.removals)).map_values(
                entity_of(),
            ),
    {
        proof {
            use_type_invariant(&*self);
        }
        let mut kept: Vec<Record> = Vec::new();
        let mut survivors: Vec<Entity> = Vec::new();
        let mut spawned: Vec<Entity> = Vec::new();
        keep_spared(&self.live, &self.removals, &mut kept, &mut survivors);
        keep_spared(&self.spawning, &self.removals, &mut kept, &mut spawned);
        let mut destroyed: Vec<Entity> = Vec::new();
        let mut i: usize = 0;
        while i < self.removals.len()
            invariant
                i <= self.removals.len(),
                destroyed@ == self.removals@.take(i as int).map_values(target_of()),
            decreases self.removals.len() - i,
        {
            destroyed.push(self.removals[i].entity);
            proof {
                assert(destroyed@ =~= self.removals@.take(i + 1).map_values(target_of()));
            }
            i += 1;
        }
        proof {
            assert(self.removals@.take(self.removals.len() as int) =~= self.removals@);
            assert(spawned@ =~= self.spawning@.filter(spared(self.removals@)).map_values(
                entity_of(),
            ));
            lemma_commit_wf(self@);
            assert(kept@ =~= self@.commit().live);
        }
        let next_id = self.next_id;
        *self = EntityStore { live: kept, spawning: Vec::new(), removals: Vec::new(), next_id };
        proof {
            assert(self@.spawning =~= old(self)@.commit().spawning);
            assert(self@.removals =~= old(self)@.commit().removals);
        }
        CommitReport { destroyed, spawned }
    }
}

/// Replacing the components of a live record keeps the invariant of the
/// store.
pub proof fn lemma_replace_wf(s: StoreModel, index: int, components: Components)
    requires
        s.wf(),
    ensures
        s.replace(index, components).wf(),
{
    let t = s.replace(index, components);
    if 0 <= index < s.live.len() {
        assert forall|e: Entity| s.is_live(e) == t.is_live(e) by {
            if s.is_live(e) {
                let k = choose|k: int| 0 <= k < s.live.len() && (#[trigger] s.live[k]).entity == e;
                assert(t.live[k].entity == e);
            }
            if t.is_live(e) {
                let k = choose|k: int| 0 <= k < t.live.len() && (#[trigger] t.live[k]).entity == e;
                assert(s.live[k].entity == e);
            }
        }
        assert forall|i: int| 0 <= i < t.removals.len() implies t.knows(
            (#[trigger] t.removals[i]).entity,
        ) by {
            assert(s.knows(s.removals[i].entity));
        }
        assert forall|i: int, j: int| 0 <= i < j < t.live.len() implies (
        #[trigger] t.live[i]).entity != (#[trigger] t.live[j]).entity by {
            assert(s.live[i].entity != s.live[j].entity);
        }
        assert forall|i: int, j: int|
            0 <= i < t.live.len() && 0 <= j < t.spawning.len() implies (#[trigger] t.live[i]).entity
            != (#[trigger] t.spawning[j]).entity by {
            assert(s.live[i].entity != s.spawning[j].entity);
        }
        assert forall|i: int| 0 <= i < t.live.len() implies (#[trigger] t.live[i]).entity.id
            < t.next_id by {
            assert(s.live[i].entity.id < s.next_id);
        }
    }
}

/// Replacing the components of a queued spawn keeps the invariant of the
/// store.
pub proof fn lemma_attach_wf(s: StoreModel, entity: Entity, components: Components)
    requires
        s.wf(),
    ensures
        s.attach(entity, components).wf(),
{
    let t = s.attach(entity, components);
    if s.is_spawning(entity) {
        let at = s.pending_place_of(entity);
        assert forall|e: Entity| s.is_spawning(e) == t.is_spawning(e) by {
            if s.is_spawning(e) {
                let k = choose|k: int|
                    0 <= k < s.spawning.len() && (#[trigger] s.spawning[k]).entity == e;
                assert(t.spawning[k].entity == e);
            }
            if t.is_spawning(e) {
                let k = choose|k: int|
                    0 <= k < t.spawning.len() && (#[trigger] t.spawning[k]).entity == e;
                assert(s.spawning[k].entity == e);
            }
        }
        assert forall|i: int| 0 <= i < t.removals.len() implies t.knows(
            (#[trigger] t.removals[i]).entity,
        ) by {
            assert(s.knows(s.removals[i].entity));
        }
        assert forall|i: int, j: int| 0 <= i < j < t.spawning.len() implies (
        #[trigger] t.spawning[i]).entity != (#[trigger] t.spawning[j]).entity by {
            assert(s.spawning[i].entity != s.spawning[j].entity);
        }
        assert forall|i: int, j: int|
            0 <= i < t.live.len() && 0 <= j < t.spawning.len() implies (#[trigger] t.live[i]).entity
            != (#[trigger] t.spawning[j]).entity by {
            assert(s.live[i].entity != s.spawning[j].entity);
        }
        assert forall|i: int| 0 <= i < t.spawning.len() implies (#[trigger] t.spawning[i]).entity.id
            < t.next_id by {
            assert(s.spawning[i].entity.id < s.next_id);
        }
    }
}

/// A request to remove an entity keeps the invariant of the store.
pub proof fn lemma_request_destroy_wf(s: StoreModel, entity: Entity, reason: Reason)
    requires
        s.wf(),
    ensures
        s.request_destroy(entity, reason).wf(),
{
    let t = s.request_destroy(entity, reason);
    if s.knows(entity) && !s.is_doomed(entity) {
        assert forall|i: int, j: int| 0 <= i < j < t.removals.len() implies (
        #[trigger] t.removals[i]).entity != (#[trigger] t.removals[j]).entity by {
            if j < s.removals.len() {
                assert(s.removals[i].entity != s.removals[j].entity);
            } else {
                assert(s.removals[i].entity != entity);
            }
        }
        assert forall|i: int| 0 <= i < t.removals.len() implies t.knows(
            (#[trigger] t.removals[i]).entity,
        ) by {
            if i < s.removals.len() {
                assert(s.knows(s.removals[i].entity));
            }
        }
    }
}

/// A request to spawn an entity keeps the invariant of the store.
pub proof fn lemma_request_spawn_wf(s: StoreModel, components: Components)
    requires
        s.wf(),
    ensures
        s.request_spawn(components).wf(),
{
    let t = s.request_spawn(components);
    if s.next_id < u64::MAX {
        assert forall|i: int| 0 <= i < t.removals.len() implies t.knows(
            (#[trigger] t.removals[i]).entity,
        ) by {
            let e = s.removals[i].entity;
            assert(s.knows(e));
            if s.is_spawning(e) {
                let k = choose|k: int|
                    0 <= k < s.spawning.len() && (#[trigger] s.spawning[k]).entity == e;
                assert(t.spawning[k].entity == e);
            }
        }
        assert forall|i: int, j: int| 0 <= i < j < t.spawning.len() implies (
        #[trigger] t.spawning[i]).entity != (#[trigger] t.spawning[j]).entity by {
            if j < s.spawning.len() {
                assert(s.spawning[i].entity != s.spawning[j].entity);
            } else {
                assert(s.spawning[i].entity.id < s.next_id);
            }
        }
        assert forall|i: int| 0 <= i < t.spawning.len() implies (#[trigger] t.spawning[i]).entity.id
            < t.next_id by {
            if i < s.spawning.len() {
                assert(s.spawning[i].entity.id < s.next_id);
            }
        }
        assert forall|i: int| 0 <= i < t.live.len() implies (#[trigger] t.live[i]).entity.id
            < t.next_id by {
            assert(s.live[i].entity.id < s.next_id);
        }
        assert forall|i: int, j: int|
            0 <= i < t.live.len() && 0 <= j < t.spawning.len() implies (#[trigger] t.live[i]).entity
            != (#[trigger] t.spawning[j]).entity by {
            if j < s.spawning.len() {
                assert(s.live[i].entity != s.spawning[j].entity);
            } else {
                assert(s.live[i].entity.id < s.next_id);
            }
        }
    }
}

/// Requests for a sequence of targets and one more are the requests for the
/// sequence, followed by the request for that one.
pub proof fn lemma_doom_all_step(s: StoreModel, targets: Seq<Entity>, next: Entity, reason: Reason)
    ensures
        s.doom_all(targets + seq![next], reason) == s.doom_all(targets, reason).request_destroy(
            next,
            reason,
        ),
        s.doom_all(targets.push(next), reason) == s.doom_all(targets, reason).request_destroy(
            next,
            reason,
        ),
{
    assert((targets + seq![next]).drop_last() =~= targets);
    assert(targets.push(next).drop_last() =~= targets);
    assert(targets + seq![next] =~= targets.push(next));
}

/// Filtering keeps records distinct, bounded, and among those it was given.
pub proof fn lemma_filter_records(records: Seq<Record>, keep: spec_fn(Record) -> bool, next_id: nat)
    ensures
        distinct(records) ==> distinct(records.filter(keep)),
        valid(records, next_id) ==> valid(records.filter(keep), next_id),
        forall|e: Entity| #[trigger]
            holds(records.filter(keep), e) ==> holds(records, e),
        forall|i: int|
            0 <= i < records.len() && keep(#[trigger] records[i]) ==> holds(
                records.filter(keep),
                records[i].entity,
            ),
        forall|k: int|
            0 <= k < records.filter(keep).len() ==> keep(#[trigger] records.filter(keep)[k]),
    decreases records.len(),
{
    reveal(Seq::filter);
    if records.len() > 0 {
        let front = records.drop_last();
        let last = records.last();
        lemma_filter_records(front, keep, next_id);
        let kept = front.filter(keep);
        let all = records.filter(keep);
        assert forall|e: Entity| #[trigger] holds(all, e) implies holds(records, e) by {
            let k = choose|k: int| 0 <= k < all.len() && (#[trigger] all[k]).entity == e;
            if k < kept.len() {
                assert(kept[k].entity == e);
                assert(holds(kept, e));
                let j = choose|j: int| 0 <= j < front.len() && (#[trigger] front[j]).entity == e;
                assert(records[j].entity == e);
            } else {
                assert(records[records.len() - 1].entity == e);
            }
        }
        assert forall|i: int| 0 <= i < records.len() && keep(#[trigger] records[i]) implies holds(
            all,
            records[i].entity,
        ) by {
            if i < front.len() {
                assert(front[i] == records[i]);
                assert(holds(kept, front[i].entity));
                let k = choose|k: int|
                    0 <= k < kept.len() && (#[trigger] kept[k]).entity == records[i].entity;
                assert(all[k].entity == records[i].entity);
            } else {
                assert(all[all.len() - 1].entity == records[i].entity);
            }
        }
        if distinct(records) {
            assert(distinct(front)) by {
                assert forall|i: int, j: int| 0 <= i < j < front.len() implies (
                #[trigger] front[i]).entity != (#[trigger] front[j]).entity by {
                    assert(records[i].entity != records[j].entity);
                }
            }
            assert forall|i: int, j: int| 0 <= i < j < all.len() implies (#[trigger] all[i]).entity
                != (#[trigger] all[j]).entity by {
                if j < kept.len() {
                    assert(kept[i].entity != kept[j].entity);
                } else {
                    assert(holds(kept, kept[i].entity));
                    let m = choose|m: int|
                        0 <= m < front.len() && (#[trigger] front[m]).entity == kept[i].entity;
                    assert(records[m].entity != records[records.len() - 1].entity);
                }
            }
        }
        if valid(records, next_id) {
            assert(valid(front, next_id)) by {
                assert forall|i: int| 0 <= i < front.len() implies (#[trigger] front[i]).entity.id
                    < next_id by {
                    assert(records[i].entity.id < next_id);
                }
            }
            assert forall|i: int| 0 <= i < all.len() implies (#[trigger] all[i]).entity.id
                < next_id by {
                if i < kept.len() {
                    assert(kept[i].entity.id < next_id);
                } else {
                    assert(records[records.len() - 1].entity.id < next_id);
                }
            }
        }
        assert forall|k: int| 0 <= k < all.len() implies keep(#[trigger] all[k]) by {
            if k < kept.len() {
                assert(keep(kept[k]));
            }
        }
    }
}

/// A commit keeps the invariant of the store.
pub proof fn lemma_commit_wf(s: StoreModel)
    requires
        s.wf(),
    ensures
        s.commit().wf(),
{
    let keep = spared(s.removals);
    let a = s.live.filter(keep);
    let b = s.spawning.filter(keep);
    lemma_filter_records(s.live, keep, s.next_id);
    lemma_filter_records(s.spawning, keep, s.next_id);
    let after = s.commit();
    assert(after.live == a + b);
    assert forall|i: int, j: int| 0 <= i < j < after.live.len() implies (
    #[trigger] after.live[i]).entity != (#[trigger] after.live[j]).entity by {
        if j < a.len() {
            assert(a[i].entity != a[j].entity);
        } else if i >= a.len() {
            assert(b[i - a.len()].entity != b[j - a.len()].entity);
        } else {
            assert(holds(a, a[i].entity));
            assert(holds(b, b[j - a.len()].entity));
            assert(holds(s.live, a[i].entity));
            assert(holds(s.spawning, b[j - a.len()].entity));
        }
    }
    assert forall|i: int| 0 <= i < after.live.len() implies (#[trigger] after.live[i]).entity.id
        < after.next_id by {
        if i < a.len() {
            assert(a[i].entity.id < s.next_id);
        } else {
            assert(b[i - a.len()].entity.id < s.next_id);
        }
    }
}

} // verus!
