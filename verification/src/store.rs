//! The entity store: entities keyed by opaque identity, each carrying zero
//! or more typed components, with creation and recursive destruction.
//!
//! Entities are appended in order of creation with strictly increasing
//! identities, and a child's parent is always created earlier, so the
//! parent→child relation is acyclic by construction.  Destruction is
//! transitive: despawning an entity removes its descendants too.  The store
//! also counts every bullet ever spawned and every bullet despawned, and its
//! well-formedness ties the two counters to the bullets presently alive.

use vstd::prelude::*;
use crate::components::{Lifetime, NameTag, Pose, Tower, Visual};
use crate::timer::TimerMode;

verus! {

/// One entity: an opaque identity and the components it owns exclusively.
#[derive(Clone, Copy, PartialEq, Eq, Structural, Debug)]
pub struct EntityRecord {
    /// The opaque identity; unique within a store and never reused.
    pub id: u64,
    /// The entity this one is a child of, if any; set by the render
    /// collaborator when a visual brings helper entities of its own.
    pub parent: Option<u64>,
    /// Display name for the inspector collaborator.
    pub name: Option<NameTag>,
    pub pose: Option<Pose>,
    pub tower: Option<Tower>,
    pub lifetime: Option<Lifetime>,
    pub visual: Option<Visual>,
}

/// The components of an entity about to be spawned; the store picks its id.
#[derive(Clone, Copy, PartialEq, Eq, Structural, Debug)]
pub struct Bundle {
    pub parent: Option<u64>,
    pub name: Option<NameTag>,
    pub pose: Option<Pose>,
    pub tower: Option<Tower>,
    pub lifetime: Option<Lifetime>,
    pub visual: Option<Visual>,
}

/// The entity store.
pub struct Store {
    /// All live entities, in order of creation.
    pub entities: Vec<EntityRecord>,
    /// The identity the next spawned entity will receive.
    pub next_id: u64,
    /// How many bullets (entities carrying a lifetime) were ever spawned.
    pub spawned_bullets: u64,
    /// How many bullets were despawned.
    pub despawned_bullets: u64,
}

/// The mathematical shadow of a [`Store`].
pub struct StoreModel {
    pub entities: Seq<EntityRecord>,
    pub next_id: u64,
    pub spawned_bullets: u64,
    pub despawned_bullets: u64,
}

impl View for Store {
    type V = StoreModel;

    open spec fn view(&self) -> StoreModel {
        StoreModel {
            entities: self.entities@,
            next_id: self.next_id,
            spawned_bullets: self.spawned_bullets,
            despawned_bullets: self.despawned_bullets,
        }
    }
}

/// How many of the entities are bullets, i.e. carry a lifetime component.
pub open spec fn bullet_count(s: Seq<EntityRecord>) -> int {
    s.filter(|e: EntityRecord| e.lifetime is Some).len() as int
}

/// Whether some entity in the sequence has the given identity.
pub open spec fn contains_id(s: Seq<EntityRecord>, id: u64) -> bool {
    exists|j: int| 0 <= j < s.len() && s[j].id == id
}

/// The identities a recursive despawn of `target` removes: the target itself
/// and every entity whose parent chain leads to it.  Because a parent always
/// precedes its children in creation order, one forward pass over the
/// sequence closes the set.
pub open spec fn doomed(s: Seq<EntityRecord>, target: u64) -> Set<u64>
    decreases s.len(),
{
    if s.len() == 0 {
        set![target]
    } else {
        let prev = doomed(s.drop_last(), target);
        let e = s.last();
        if prev.contains(e.id) || (e.parent is Some && prev.contains(e.parent->0)) {
            prev.insert(e.id)
        } else {
            prev
        }
    }
}

/// Whether entity `e` outlives a recursive despawn of `target`.
pub open spec fn survives(s: Seq<EntityRecord>, target: u64, e: EntityRecord) -> bool {
    !doomed(s, target).contains(e.id)
}

/// The first `i` entities of `s` that survive a recursive despawn of
/// `target`, in their original order.
pub open spec fn survivors_upto(s: Seq<EntityRecord>, target: u64, i: int) -> Seq<EntityRecord>
    recommends
        0 <= i <= s.len(),
    decreases i,
{
    if i <= 0 {
        Seq::empty()
    } else {
        let prev = survivors_upto(s, target, i - 1);
        if survives(s, target, s[i - 1]) {
            prev.push(s[i - 1])
        } else {
            prev
        }
    }
}

/// What a recursive despawn of `target` leaves in the store: the surviving
/// entities, in their original order.
pub open spec fn despawn_result(s: Seq<EntityRecord>, target: u64) -> Seq<EntityRecord> {
    survivors_upto(s, target, s.len() as int)
}

/// One forward step of the doomed-set closure: the prefix one longer dooms
/// entity `s[i]` exactly when the shorter prefix already dooms its identity
/// or its parent.
proof fn lemma_doomed_step(s: Seq<EntityRecord>, target: u64, i: int)
    requires
        0 <= i < s.len(),
    ensures
        ({
            let prev = doomed(s.take(i), target);
            doomed(s.take(i + 1), target) == if prev.contains(s[i].id) || (s[i].parent is Some
                && prev.contains(s[i].parent->0)) {
                prev.insert(s[i].id)
            } else {
                prev
            }
        }),
{
    assert(s.take(i + 1).drop_last() =~= s.take(i));
    assert(s.take(i + 1).last() == s[i]);
}

/// The target's own identity is doomed from the start.
proof fn lemma_doomed_target(s: Seq<EntityRecord>, target: u64)
    ensures
        doomed(s, target).contains(target),
    decreases s.len(),
{
    if s.len() > 0 {
        lemma_doomed_target(s.drop_last(), target);
    }
}

/// The doomed set only grows along the forward pass.
proof fn lemma_doomed_mono(s: Seq<EntityRecord>, target: u64, i: int, j: int)
    requires
        0 <= i <= j <= s.len(),
    ensures
        doomed(s.take(i), target).subset_of(doomed(s.take(j), target)),
    decreases j - i,
{
    if i < j {
        lemma_doomed_mono(s, target, i, j - 1);
        lemma_doomed_step(s, target, j - 1);
    }
}

/// Once the pass has moved past an entity, whether its identity is doomed
/// never changes again, because identities are strictly increasing and an
/// identity is only ever added at its own position.
proof fn lemma_doomed_stable(s: Seq<EntityRecord>, target: u64, i: int, j: int)
    requires
        forall|a: int, b: int|
            0 <= a < b < s.len() ==> (#[trigger] s[a]).id < (#[trigger] s[b]).id,
        0 <= i < s.len(),
        i + 1 <= j <= s.len(),
    ensures
        doomed(s.take(j), target).contains(s[i].id) == doomed(s.take(i + 1), target).contains(
            s[i].id,
        ),
    decreases j,
{
    if j > i + 1 {
        lemma_doomed_stable(s, target, i, j - 1);
        lemma_doomed_step(s, target, j - 1);
        assert(s[i].id != s[j - 1].id);
    }
}

/// In a store where no entity has a parent, a recursive despawn dooms
/// exactly the target identity.
pub proof fn lemma_doomed_flat(s: Seq<EntityRecord>, target: u64)
    requires
        forall|i: int| 0 <= i < s.len() ==> (#[trigger] s[i]).parent is None,
    ensures
        forall|x: u64| #[trigger] doomed(s, target).contains(x) <==> x == target,
    decreases s.len(),
{
    if s.len() > 0 {
        assert(forall|i: int|
            0 <= i < s.drop_last().len() ==> (#[trigger] s.drop_last()[i]).parent is None);
        lemma_doomed_flat(s.drop_last(), target);
        assert(s.last() == s[s.len() - 1]);
        assert(s.last().parent is None);
        assert forall|x: u64| #[trigger] doomed(s, target).contains(x) <==> x == target by {
            let prev = doomed(s.drop_last(), target);
            let e = s.last();
            if prev.contains(e.id) || (e.parent is Some && prev.contains(e.parent->0)) {
                assert(doomed(s, target) == prev.insert(e.id));
                assert(e.id == target);
            } else {
                assert(doomed(s, target) == prev);
            }
        }
    }
}

/// Every survivor of a recursive despawn is one of the original entities.
pub proof fn lemma_survivors_origin(s: Seq<EntityRecord>, target: u64, i: int)
    requires
        0 <= i <= s.len(),
    ensures
        forall|a: int|
            0 <= a < survivors_upto(s, target, i).len() ==> exists|x: int|
                0 <= x < i && #[trigger] survivors_upto(s, target, i)[a] == s[x],
    decreases i,
{
    if i > 0 {
        lemma_survivors_origin(s, target, i - 1);
        let prev = survivors_upto(s, target, i - 1);
        let r = survivors_upto(s, target, i);
        assert forall|a: int| 0 <= a < r.len() implies exists|x: int|
            0 <= x < i && #[trigger] r[a] == s[x] by {
            if a < prev.len() {
                assert(r[a] == prev[a]);
                let x = choose|x: int| 0 <= x < i - 1 && #[trigger] prev[a] == s[x];
                assert(r[a] == s[x]);
            } else {
                assert(r[a] == s[i - 1]);
            }
        }
    }
}

/// In a store where no entity has a parent, despawning an identity other
/// than that of the distinguished entity at `j` keeps that entity: it
/// stands at one position of the survivors, and every other survivor is one
/// of the remaining original entities.
pub proof fn lemma_survivors_flat(s: Seq<EntityRecord>, target: u64, i: int, j: int) -> (j2: int)
    requires
        forall|a: int| 0 <= a < s.len() ==> (#[trigger] s[a]).parent is None,
        0 <= j < s.len(),
        s[j].id != target,
        0 <= i <= s.len(),
        j < i,
    ensures
        0 <= j2 < survivors_upto(s, target, i).len(),
        survivors_upto(s, target, i)[j2] == s[j],
        forall|a: int|
            0 <= a < survivors_upto(s, target, i).len() && a != j2 ==> exists|x: int|
                0 <= x < s.len() && x != j && #[trigger] survivors_upto(s, target, i)[a] == s[x],
    decreases i,
{
    lemma_doomed_flat(s, target);
    if i == j + 1 {
        let prev = survivors_upto(s, target, j);
        let r = survivors_upto(s, target, i);
        assert(survives(s, target, s[j]));
        assert(r == prev.push(s[j]));
        let j2 = prev.len() as int;
        assert(r[j2] == s[j]);
        lemma_survivors_origin(s, target, j);
        assert forall|a: int| 0 <= a < r.len() && a != j2 implies exists|x: int|
            0 <= x < s.len() && x != j && #[trigger] r[a] == s[x] by {
            assert(r[a] == prev[a]);
            let x = choose|x: int| 0 <= x < j && #[trigger] prev[a] == s[x];
            assert(r[a] == s[x]);
        }
        j2
    } else {
        let j2 = lemma_survivors_flat(s, target, i - 1, j);
        let prev = survivors_upto(s, target, i - 1);
        let r = survivors_upto(s, target, i);
        assert forall|a: int| 0 <= a < r.len() && a != j2 implies exists|x: int|
            0 <= x < s.len() && x != j && #[trigger] r[a] == s[x] by {
            if a < prev.len() {
                assert(r[a] == prev[a]);
                if a != j2 {
                    let x = choose|x: int|
                        0 <= x < s.len() && x != j && #[trigger] prev[a] == s[x];
                    assert(r[a] == s[x]);
                }
            } else {
                assert(r[a] == s[i - 1]);
                assert(i - 1 != j);
            }
        }
        assert(r[j2] == s[j]);
        j2
    }
}

/// When no entity has a parent, no survivor of a recursive despawn carries
/// the despawned identity.
pub proof fn lemma_survivors_no_target(s: Seq<EntityRecord>, target: u64, i: int)
    requires
        forall|a: int| 0 <= a < s.len() ==> (#[trigger] s[a]).parent is None,
        0 <= i <= s.len(),
    ensures
        forall|a: int|
            0 <= a < survivors_upto(s, target, i).len() ==> (#[trigger] survivors_upto(
                s,
                target,
                i,
            )[a]).id != target,
    decreases i,
{
    lemma_doomed_flat(s, target);
    if i > 0 {
        lemma_survivors_no_target(s, target, i - 1);
        let prev = survivors_upto(s, target, i - 1);
        let r = survivors_upto(s, target, i);
        assert forall|a: int| 0 <= a < r.len() implies (#[trigger] r[a]).id != target by {
            if a < prev.len() {
                assert(r[a] == prev[a]);
            } else {
                assert(survives(s, target, s[i - 1]));
                assert(r[a] == s[i - 1]);
            }
        }
    }
}

/// Survivors of a recursive despawn keep pairwise distinct identities.
pub proof fn lemma_survivors_distinct(s: Seq<EntityRecord>, target: u64, i: int)
    requires
        forall|a: int, b: int|
            0 <= a < b < s.len() ==> (#[trigger] s[a]).id != (#[trigger] s[b]).id,
        0 <= i <= s.len(),
    ensures
        forall|a1: int, a2: int|
            0 <= a1 < a2 < survivors_upto(s, target, i).len() ==> (#[trigger] survivors_upto(
                s,
                target,
                i,
            )[a1]).id != (#[trigger] survivors_upto(s, target, i)[a2]).id,
    decreases i,
{
    if i > 0 {
        lemma_survivors_distinct(s, target, i - 1);
        lemma_survivors_origin(s, target, i - 1);
        let prev = survivors_upto(s, target, i - 1);
        let r = survivors_upto(s, target, i);
        assert forall|a1: int, a2: int|
            0 <= a1 < a2 < r.len() implies (#[trigger] r[a1]).id != (#[trigger] r[a2]).id by {
            if a2 < prev.len() {
                assert(r[a1] == prev[a1] && r[a2] == prev[a2]);
            } else if r.len() > prev.len() {
                assert(r[a2] == s[i - 1]);
                assert(r[a1] == prev[a1]);
                let x = choose|x: int| 0 <= x < i - 1 && #[trigger] prev[a1] == s[x];
                assert(s[x].id != s[i - 1].id);
            }
        }
    }
}

/// The record a bundle becomes once the store assigns it an identity.
pub open spec fn record_of(b: Bundle, id: u64) -> EntityRecord {
    EntityRecord {
        id,
        parent: b.parent,
        name: b.name,
        pose: b.pose,
        tower: b.tower,
        lifetime: b.lifetime,
        visual: b.visual,
    }
}

impl StoreModel {
    /// Well-formedness of the store:
    /// identities are strictly increasing along creation order (hence unique)
    /// and below `next_id`; every parent was created earlier, so the
    /// parent→child relation is acyclic; tower timers are well-formed and
    /// repeating, lifetime timers well-formed and one-shot; and the spawn
    /// and despawn counters account exactly for the bullets alive.
    pub open spec fn wf(self) -> bool {
        &&& forall|i: int|
            0 <= i < self.entities.len() ==> (#[trigger] self.entities[i]).id < self.next_id
        &&& forall|i: int, j: int|
            0 <= i < j < self.entities.len() ==> (#[trigger] self.entities[i]).id < (
            #[trigger] self.entities[j]).id
        &&& forall|i: int|
            0 <= i < self.entities.len() && (#[trigger] self.entities[i]).parent is Some
                ==> exists|j: int|
                0 <= j < i && (#[trigger] self.entities[j]).id == self.entities[i].parent->0
        &&& forall|i: int|
            0 <= i < self.entities.len() && (#[trigger] self.entities[i]).tower is Some ==> {
                &&& self.entities[i].tower->0.shooting_timer.wf()
                &&& self.entities[i].tower->0.shooting_timer.mode == TimerMode::Repeating
            }
        &&& forall|i: int|
            0 <= i < self.entities.len() && (#[trigger] self.entities[i]).lifetime is Some ==> {
                &&& self.entities[i].lifetime->0.timer.wf()
                &&& self.entities[i].lifetime->0.timer.mode == TimerMode::OneShot
            }
        &&& self.despawned_bullets <= self.spawned_bullets
        &&& self.spawned_bullets <= self.next_id
        &&& self.spawned_bullets - self.despawned_bullets == bullet_count(self.entities)
    }
}

/// The model of spawning: append the bundle's record under the next
/// identity, advance the identity counter, and count a spawned bullet when
/// the bundle carries a lifetime.
pub open spec fn spawn_spec(m: StoreModel, b: Bundle) -> StoreModel
    recommends
        m.next_id < u64::MAX,
{
    StoreModel {
        entities: m.entities.push(record_of(b, m.next_id)),
        next_id: (m.next_id + 1) as u64,
        spawned_bullets: if b.lifetime is Some {
            (m.spawned_bullets + 1) as u64
        } else {
            m.spawned_bullets
        },
        despawned_bullets: m.despawned_bullets,
    }
}

impl Store {
    /// An empty store.
    pub fn new() -> (s: Store)
        ensures
            s@.entities == Seq::<EntityRecord>::empty(),
            s@.next_id == 0,
            s@.spawned_bullets == 0,
            s@.despawned_bullets == 0,
            s@.wf(),
    {
        let s = Store { entities: Vec::new(), next_id: 0, spawned_bullets: 0, despawned_bullets: 0 };
        proof {
            assert(s.entities@ =~= Seq::<EntityRecord>::empty());
            reveal(Seq::filter);
        }
        s
    }

    /// How many entities the store holds.
    pub fn len(&self) -> (n: usize)
        ensures
            n == self@.entities.len(),
    {
        self.entities.len()
    }

    /// The entity at a creation-order position.
    pub fn entity_at(&self, i: usize) -> (e: EntityRecord)
        requires
            i < self@.entities.len(),
        ensures
            e == self@.entities[i as int],
    {
        self.entities[i]
    }

    /// Whether an entity with the given identity is alive.
    pub fn contains(&self, id: u64) -> (r: bool)
        ensures
            r == contains_id(self@.entities, id),
    {
        let mut i: usize = 0;
        while i < self.entities.len()
            invariant
                i <= self@.entities.len(),
                forall|j: int| 0 <= j < i ==> (#[trigger] self@.entities[j]).id != id,
            decreases self@.entities.len() - i,
        {
            if self.entities[i].id == id {
                return true;
            }
            i = i + 1;
        }
        false
    }

    /// How many bullets are alive right now.  By conservation this is the
    /// difference between the bullets ever spawned and those despawned.
    pub fn bullets_alive(&self) -> (n: u64)
        requires
            self@.wf(),
        ensures
            n == bullet_count(self@.entities),
            n == self@.spawned_bullets - self@.despawned_bullets,
    {
        self.spawned_bullets - self.despawned_bullets
    }

    /// Creates one entity owning the bundle's components and returns its
    /// identity.  The parent, if any, must be alive; a tower bundle carries a
    /// well-formed repeating timer and a bullet bundle a well-formed
    /// one-shot one, as the data model demands.
    pub fn spawn(&mut self, b: Bundle) -> (id: u64)
        requires
            old(self)@.wf(),
            old(self)@.next_id < u64::MAX,
            b.parent is Some ==> contains_id(old(self)@.entities, b.parent->0),
            b.tower is Some ==> b.tower->0.shooting_timer.wf() && b.tower->0.shooting_timer.mode
                == TimerMode::Repeating,
            b.lifetime is Some ==> b.lifetime->0.timer.wf() && b.lifetime->0.timer.mode
                == TimerMode::OneShot,
        ensures
            final(self)@ == spawn_spec(old(self)@, b),
            id == old(self)@.next_id,
            final(self)@.wf(),
    {
        let id = self.next_id;
        let rec = EntityRecord {
            id,
            parent: b.parent,
            name: b.name,
            pose: b.pose,
            tower: b.tower,
            lifetime: b.lifetime,
            visual: b.visual,
        };
        self.entities.push(rec);
        self.next_id = self.next_id + 1;
        if b.lifetime.is_some() {
            self.spawned_bullets = self.spawned_bullets + 1;
        }
        proof {
            lemma_bullet_count_push(old(self)@.entities, rec);
            let olds = old(self)@.entities;
            let news = self@.entities;
            let n = olds.len() as int;
            assert(news == olds.push(rec));
            assert(forall|i: int| 0 <= i < n ==> news[i] == olds[i]);
            assert(news[n] == rec);
            assert forall|i: int, j: int| 0 <= i < j < news.len() implies (#[trigger] news[i]).id
                < (#[trigger] news[j]).id by {
                if j < n {
                    assert(olds[i].id < olds[j].id);
                } else {
                    assert(olds[i].id < old(self)@.next_id);
                }
            }
            assert forall|i: int|
                0 <= i < news.len() && (#[trigger] news[i]).parent is Some implies exists|j: int|
                0 <= j < i && (#[trigger] news[j]).id == news[i].parent->0 by {
                if i < n {
                    let j = choose|j: int| 0 <= j < i && (#[trigger] olds[j]).id == olds[i].parent
                        ->0;
                    assert(news[j].id == news[i].parent->0);
                } else {
                    let j = choose|j: int| 0 <= j < n && (#[trigger] olds[j]).id == b.parent->0;
                    assert(news[j].id == news[i].parent->0);
                }
            }
        }
        id
    }
}

impl Store {
    /// Removes the entity with the given identity together with all of its
    /// descendants, in one pass, and counts the removed bullets as
    /// despawned.  An identity no entity carries removes nothing.
    #[verifier::rlimit(60)]
    pub fn despawn_recursive(&mut self, target: u64)
        requires
            old(self)@.wf(),
        ensures
            final(self)@.entities == despawn_result(old(self)@.entities, target),
            final(self)@.next_id == old(self)@.next_id,
            final(self)@.spawned_bullets == old(self)@.spawned_bullets,
            final(self)@.despawned_bullets == old(self)@.despawned_bullets + bullet_count(
                old(self)@.entities,
            ) - bullet_count(final(self)@.entities),
            !contains_id(final(self)@.entities, target),
            final(self)@.wf(),
    {
        let ghost olds = self.entities@;
        let ghost n_g = olds.len() as int;
        let n = self.entities.len();
        let mut kept: Vec<EntityRecord> = Vec::new();
        let mut doomed_ids: Vec<u64> = Vec::new();
        doomed_ids.push(target);
        let mut removed_b: u64 = 0;
        let mut i: usize = 0;
        proof {
            reveal(Seq::filter);
            assert(kept@ =~= Seq::<EntityRecord>::empty());
            assert(bullet_count(kept@) == 0);
            assert(olds.take(0) =~= Seq::<EntityRecord>::empty());
            assert(bullet_count(olds.take(0)) == 0);
            assert(doomed_ids@ == Seq::<u64>::empty().push(target));
            assert(olds.take(n_g) =~= olds);
            assert forall|x: u64|
                #[trigger] doomed_ids@.contains(x) == doomed(olds.take(0), target).contains(
                x,
            ) by {
                assert(olds.take(0).len() == 0);
                assert(doomed(olds.take(0), target) == set![target]);
                if doomed_ids@.contains(x) {
                    let j = choose|j: int| 0 <= j < doomed_ids@.len() && doomed_ids@[j] == x;
                    assert(x == target);
                }
                if x == target {
                    assert(doomed_ids@[0] == target);
                    assert(doomed_ids@.contains(x));
                }
            }
        }
        while i < n
            invariant
                n == olds.len(),
                n_g == olds.len() as int,
                self.entities@ == olds,
                self.next_id == old(self).next_id,
                self.spawned_bullets == old(self).spawned_bullets,
                self.despawned_bullets == old(self).despawned_bullets,
                old(self)@.wf(),
                i <= n,
                forall|x: u64|
                    #[trigger] doomed_ids@.contains(x) == doomed(olds.take(i as int), target)
                        .contains(x),
                kept@ == survivors_upto(olds, target, i as int),
                bullet_count(kept@) == bullet_count(olds.take(i as int)) - removed_b,
                removed_b <= i,
                forall|a: int|
                    0 <= a < kept@.len() ==> exists|x: int|
                        0 <= x < i && #[trigger] kept@[a] == olds[x],
                forall|a: int, b: int|
                    0 <= a < b < kept@.len() ==> (#[trigger] kept@[a]).id < (#[trigger] kept@[b]).id,
                forall|a: int|
                    0 <= a < kept@.len() && (#[trigger] kept@[a]).parent is Some ==> exists|b: int|
                        0 <= b < a && (#[trigger] kept@[b]).id == kept@[a].parent->0,
                forall|a: int|
                    0 <= a < kept@.len() ==> !doomed(olds, target).contains((#[trigger] kept@[a]).id),
            decreases n - i,
        {
            let ghost ii = i as int;
            let ghost prev = doomed(olds.take(ii), target);
            let e = self.entities[i];
            let doomed_here = id_in(&doomed_ids, e.id) || match e.parent {
                Some(p) => id_in(&doomed_ids, p),
                None => false,
            };
            proof {
                assert(e == olds[ii]);
                assert(doomed_here == (prev.contains(e.id) || (e.parent is Some && prev.contains(
                    e.parent->0,
                ))));
                lemma_doomed_step(olds, target, ii);
                lemma_doomed_stable(olds, target, ii, n_g);
                assert(olds.take(n_g) =~= olds);
                assert(olds.take(ii + 1) =~= olds.take(ii).push(olds[ii]));
                lemma_bullet_count_push(olds.take(ii), olds[ii]);
                assert(bullet_count(olds.take(ii + 1)) == bullet_count(olds.take(ii)) + if e.lifetime
                    is Some {
                    1int
                } else {
                    0int
                });
            }
            if doomed_here {
                let ghost dprior = doomed_ids@;
                doomed_ids.push(e.id);
                if e.lifetime.is_some() {
                    removed_b = removed_b + 1;
                }
                proof {
                    assert(doomed(olds.take(ii + 1), target) == prev.insert(e.id));
                    assert(doomed_ids@ == dprior.push(e.id));
                    assert forall|x: u64|
                        #[trigger] doomed_ids@.contains(x) == doomed(olds.take(ii + 1), target)
                            .contains(x) by {
                        if doomed_ids@.contains(x) {
                            let j = choose|j: int|
                                0 <= j < doomed_ids@.len() && doomed_ids@[j] == x;
                            if j < dprior.len() {
                                assert(dprior[j] == x);
                                assert(dprior.contains(x));
                                assert(prev.contains(x));
                            } else {
                                assert(x == e.id);
                            }
                            assert(doomed(olds.take(ii + 1), target).contains(x));
                        }
                        if doomed(olds.take(ii + 1), target).contains(x) {
                            if x == e.id {
                                assert(doomed_ids@[dprior.len() as int] == x);
                                assert(doomed_ids@.contains(x));
                            } else {
                                assert(prev.contains(x));
                                assert(dprior.contains(x));
                                let j = choose|j: int| 0 <= j < dprior.len() && dprior[j] == x;
                                assert(doomed_ids@[j] == x);
                                assert(doomed_ids@.contains(x));
                            }
                        }
                    }
                    assert(kept@ == survivors_upto(olds, target, ii + 1));
                }
            } else {
                let ghost kprior = kept@;
                kept.push(e);
                proof {
                    assert(doomed(olds.take(ii + 1), target) == prev);
                    assert(!doomed(olds.take(ii + 1), target).contains(e.id));
                    // doomed in no longer prefix either, so the entity survives outright
                    assert(!doomed(olds, target).contains(e.id));
                    assert(survives(olds, target, olds[ii]));
                    assert(kept@ == kprior.push(e));
                    assert(kept@ == survivors_upto(olds, target, ii + 1));
                    lemma_bullet_count_push(kprior, e);
                    let kepts = kept@;
                    assert forall|a: int|
                        0 <= a < kepts.len() implies exists|x: int|
                        0 <= x < i + 1 && #[trigger] kepts[a] == olds[x] by {
                        if a < kepts.len() - 1 {
                            assert(kepts[a] == kprior[a]);
                            let x = choose|x: int| 0 <= x < i && #[trigger] kprior[a] == olds[x];
                            assert(kepts[a] == olds[x]);
                        } else {
                            assert(kepts[a] == olds[ii]);
                        }
                    }
                    assert forall|a: int, b: int|
                        0 <= a < b < kepts.len() implies (#[trigger] kepts[a]).id < (
                    #[trigger] kepts[b]).id by {
                        if b < kepts.len() - 1 {
                            assert(kprior[a].id < kprior[b].id);
                        } else {
                            assert(kepts[a] == kprior[a]);
                            let x = choose|x: int| 0 <= x < i && #[trigger] kprior[a] == olds[x];
                            assert(olds[x].id < olds[ii].id);
                        }
                    }
                    assert forall|a: int|
                        0 <= a < kepts.len() && (#[trigger] kepts[a]).parent is Some implies exists|
                        b: int,
                    |
                        0 <= b < a && (#[trigger] kepts[b]).id == kepts[a].parent->0 by {
                        if a < kepts.len() - 1 {
                            let b = choose|b: int|
                                0 <= b < a && (#[trigger] kprior[b]).id == kprior[a].parent->0;
                            assert(kepts[b].id == kepts[a].parent->0);
                        } else {
                            // the parent of a surviving entity survives, earlier in the pass
                            let p = e.parent->0;
                            assert(!prev.contains(p));
                            assert(olds[ii].parent is Some);
                            assert(exists|b0: int|
                                0 <= b0 < ii && (#[trigger] olds[b0]).id == olds[ii].parent->0);
                            let b0 = choose|b0: int|
                                0 <= b0 < ii && (#[trigger] olds[b0]).id == olds[ii].parent->0;
                            lemma_doomed_mono(olds, target, b0 + 1, ii);
                            assert(!doomed(olds.take(b0 + 1), target).contains(p));
                            lemma_doomed_stable(olds, target, b0, n_g);
                            assert(!doomed(olds, target).contains(olds[b0].id));
                            lemma_survivor_present(olds, target, b0, ii);
                            let b = choose|b: int|
                                0 <= b < survivors_upto(olds, target, ii).len() && (
                                #[trigger] survivors_upto(olds, target, ii)[b]) == olds[b0];
                            assert(kprior[b] == olds[b0]);
                            assert(kepts[b].id == kepts[a].parent->0);
                        }
                    }
                    assert forall|a: int|
                        0 <= a < kepts.len() implies !doomed(olds, target).contains(
                        (#[trigger] kepts[a]).id,
                    ) by {
                        if a < kepts.len() - 1 {
                            assert(!doomed(olds, target).contains(kprior[a].id));
                        }
                    }
                }
            }
            i = i + 1;
        }
        proof {
            assert(olds.take(n_g) =~= olds);
            assert(kept@ == despawn_result(olds, target));
            assert(bullet_count(kept@) >= 0) by {
                reveal(Seq::filter);
            }
            assert(bullet_count(olds) == old(self)@.spawned_bullets - old(
                self,
            )@.despawned_bullets);
            assert(old(self)@.despawned_bullets + removed_b <= old(self)@.spawned_bullets);
            lemma_doomed_target(olds, target);
        }
        self.entities = kept;
        self.despawned_bullets = self.despawned_bullets + removed_b;
        proof {
            let m = self@;
            assert(m.entities == kept@);
            assert forall|a: int|
                0 <= a < m.entities.len() implies (#[trigger] m.entities[a]).id < m.next_id by {
                let x = choose|x: int| 0 <= x < n && #[trigger] kept@[a] == olds[x];
                assert(olds[x].id < old(self)@.next_id);
            }
            assert forall|a: int|
                0 <= a < m.entities.len() && (#[trigger] m.entities[a]).tower is Some implies {
                &&& m.entities[a].tower->0.shooting_timer.wf()
                &&& m.entities[a].tower->0.shooting_timer.mode == TimerMode::Repeating
            } by {
                let x = choose|x: int| 0 <= x < n && #[trigger] kept@[a] == olds[x];
                assert(olds[x].tower is Some);
            }
            assert forall|a: int|
                0 <= a < m.entities.len() && (#[trigger] m.entities[a]).lifetime is Some implies {
                &&& m.entities[a].lifetime->0.timer.wf()
                &&& m.entities[a].lifetime->0.timer.mode == TimerMode::OneShot
            } by {
                let x = choose|x: int| 0 <= x < n && #[trigger] kept@[a] == olds[x];
                assert(olds[x].lifetime is Some);
            }
            assert forall|a: int|
                0 <= a < m.entities.len() implies (#[trigger] m.entities[a]).id != target by {
                assert(!doomed(olds, target).contains(kept@[a].id));
            }
        }
    }
}


/// A surviving entity appears among the survivors of any longer prefix.
proof fn lemma_survivor_present(s: Seq<EntityRecord>, target: u64, b0: int, i: int)
    requires
        0 <= b0 < i <= s.len(),
        !doomed(s, target).contains(s[b0].id),
    ensures
        exists|b: int|
            0 <= b < survivors_upto(s, target, i).len() && (#[trigger] survivors_upto(
                s,
                target,
                i,
            )[b]) == s[b0],
    decreases i,
{
    if i == b0 + 1 {
        assert(survivors_upto(s, target, i).last() == s[b0]);
        let w = survivors_upto(s, target, i).len() - 1;
        assert(survivors_upto(s, target, i)[w] == s[b0]);
    } else {
        lemma_survivor_present(s, target, b0, i - 1);
        let prev = survivors_upto(s, target, i - 1);
        let b = choose|b: int| 0 <= b < prev.len() && (#[trigger] prev[b]) == s[b0];
        if survives(s, target, s[i - 1]) {
            assert(survivors_upto(s, target, i)[b] == s[b0]);
        } else {
            assert(survivors_upto(s, target, i)[b] == s[b0]);
        }
    }
}

/// Whether a vector of identities holds the given one.
fn id_in(ids: &Vec<u64>, x: u64) -> (r: bool)
    ensures
        r == ids@.contains(x),
{
    let mut i: usize = 0;
    while i < ids.len()
        invariant
            i <= ids@.len(),
            forall|j: int| 0 <= j < i ==> ids@[j] != x,
        decreases ids@.len() - i,
    {
        if ids[i] == x {
            return true;
        }
        i = i + 1;
    }
    false
}

/// Appending one record moves the bullet count by one exactly when the
/// record carries a lifetime.
pub proof fn lemma_bullet_count_push(s: Seq<EntityRecord>, e: EntityRecord)
    ensures
        bullet_count(s.push(e)) == bullet_count(s) + if e.lifetime is Some {
            1int
        } else {
            0int
        },
{
    reveal(Seq::filter);
    assert(s.push(e).drop_last() =~= s);
    assert(s.push(e).last() == e);
}

/// Two sequences that agree on which positions carry a lifetime hold the
/// same number of bullets.
pub proof fn lemma_bullet_count_pointwise(s1: Seq<EntityRecord>, s2: Seq<EntityRecord>)
    requires
        s1.len() == s2.len(),
        forall|i: int|
            0 <= i < s1.len() ==> ((#[trigger] s1[i]).lifetime is Some) == ((
            #[trigger] s2[i]).lifetime is Some),
    ensures
        bullet_count(s1) == bullet_count(s2),
    decreases s1.len(),
{
    if s1.len() > 0 {
        lemma_bullet_count_pointwise(s1.drop_last(), s2.drop_last());
        lemma_bullet_count_push(s1.drop_last(), s1.last());
        lemma_bullet_count_push(s2.drop_last(), s2.last());
        assert(s1.drop_last().push(s1.last()) =~= s1);
        assert(s2.drop_last().push(s2.last()) =~= s2);
        assert((s1[s1.len() - 1]).lifetime is Some == (s2[s2.len() - 1]).lifetime is Some);
    }
}

/// Conservation: in any well-formed store the bullets alive are exactly the
/// bullets ever spawned minus those despawned, and never negative.
pub proof fn lemma_conservation(m: StoreModel)
    requires
        m.wf(),
    ensures
        bullet_count(m.entities) == m.spawned_bullets - m.despawned_bullets,
        m.spawned_bullets >= m.despawned_bullets,
        bullet_count(m.entities) >= 0,
{
}

} // verus!
