//! The per-frame systems, the deferred command buffer that joins them, and
//! the startup stage that seeds the scene.
//!
//! Each frame the tower system advances every shooting timer and asks for
//! one bullet per completion; the bullet-lifetime system advances every
//! lifetime and asks for a recursive despawn of each bullet whose lifetime
//! completed.  Both only record commands; the commands are applied at the
//! frame boundary, so an entity created or destroyed during a frame becomes
//! visible exactly at the next frame boundary and iteration is never
//! invalidated.  A bullet spawned this frame is therefore never despawned in
//! the same frame.

use vstd::prelude::*;
use crate::components::{
    GameAssets, Lifetime, NameTag, Pose, Rotation, Tower, Vec3Milli, Visual, ColorMilli,
    spec_bullet_lifetime, spec_bullet_pose, bullet_lifetime, bullet_pose, P_FIRE,
};
use crate::store::{
    Bundle, EntityRecord, Store, StoreModel, bullet_count, contains_id, despawn_result,
    spawn_spec, lemma_bullet_count_pointwise,
};
use crate::timer::{
    Timer, TimerMode, spec_tick, spec_ticks, fire_count, delta_sum, lemma_spec_tick_wf,
    lemma_repeating_fire_count, lemma_oneshot_finality, lemma_delta_sum_nonneg,
    lemma_delta_sum_bounds,
};

verus! {

/// A deferred entity-store operation, requested by a system during a frame
/// and applied at the frame boundary.
#[derive(Clone, Copy, PartialEq, Eq, Structural, Debug)]
pub enum Command {
    /// Spawn one bullet with the fixed pose, a fresh lifetime, and the given
    /// scene handle (`None` when the bullet asset is unresolved).
    SpawnBullet { scene: Option<u64> },
    /// Recursively despawn the entity with this identity.
    DespawnRecursive { id: u64 },
}

/// The command buffer systems write into during a frame.
pub struct Commands {
    pub ops: Vec<Command>,
}

impl Commands {
    /// An empty command buffer.
    pub fn new() -> (c: Commands)
        ensures
            c.ops@ == Seq::<Command>::empty(),
    {
        let c = Commands { ops: Vec::new() };
        proof {
            assert(c.ops@ =~= Seq::<Command>::empty());
        }
        c
    }
}

/// An entity after the tower system's tick: its shooting timer advanced by
/// the frame delta, everything else untouched.
pub open spec fn tower_ticked(e: EntityRecord, delta: u64) -> EntityRecord {
    match e.tower {
        Some(t) => EntityRecord {
            tower: Some(Tower { shooting_timer: spec_tick(t.shooting_timer, delta) }),
            ..e
        },
        None => e,
    }
}

/// Whether this frame's tick completes the entity's shooting timer.
pub open spec fn tower_fires(e: EntityRecord, delta: u64) -> bool {
    e.tower is Some && spec_tick(e.tower->0.shooting_timer, delta).just_finished
}

/// All entities after the tower system's tick.
pub open spec fn tick_towers(s: Seq<EntityRecord>, delta: u64) -> Seq<EntityRecord> {
    Seq::new(s.len(), |i: int| tower_ticked(s[i], delta))
}

/// How many towers fire this frame.
pub open spec fn fired_count(s: Seq<EntityRecord>, delta: u64) -> int
    decreases s.len(),
{
    if s.len() == 0 {
        0
    } else {
        fired_count(s.drop_last(), delta) + if tower_fires(s.last(), delta) {
            1int
        } else {
            0int
        }
    }
}

/// The spawn requests the tower system records: one bullet per firing tower.
pub open spec fn spawn_commands(s: Seq<EntityRecord>, delta: u64, scene: Option<u64>) -> Seq<
    Command,
> {
    Seq::new(fired_count(s, delta) as nat, |i: int| Command::SpawnBullet { scene })
}

/// An entity after the bullet-lifetime system's tick: its lifetime timer
/// advanced by the frame delta, everything else untouched.
pub open spec fn lifetime_ticked(e: EntityRecord, delta: u64) -> EntityRecord {
    match e.lifetime {
        Some(l) => EntityRecord { lifetime: Some(Lifetime { timer: spec_tick(l.timer, delta) }), ..e },
        None => e,
    }
}

/// Whether this frame's tick completes the entity's lifetime.
pub open spec fn lifetime_expires(e: EntityRecord, delta: u64) -> bool {
    e.lifetime is Some && spec_tick(e.lifetime->0.timer, delta).just_finished
}

/// All entities after the bullet-lifetime system's tick.
pub open spec fn tick_lifetimes(s: Seq<EntityRecord>, delta: u64) -> Seq<EntityRecord> {
    Seq::new(s.len(), |i: int| lifetime_ticked(s[i], delta))
}

/// The despawn requests the bullet-lifetime system records, in store order:
/// one recursive despawn per bullet whose lifetime completes this frame.
pub open spec fn despawn_commands(s: Seq<EntityRecord>, delta: u64) -> Seq<Command>
    decreases s.len(),
{
    if s.len() == 0 {
        Seq::empty()
    } else {
        let prev = despawn_commands(s.drop_last(), delta);
        if lifetime_expires(s.last(), delta) {
            prev.push(Command::DespawnRecursive { id: s.last().id })
        } else {
            prev
        }
    }
}

/// The components of a fresh bullet: no parent, the bullet name, the fixed
/// pose, a fresh one-shot lifetime, and the scene visual.
pub open spec fn bullet_bundle(scene: Option<u64>) -> Bundle {
    Bundle {
        parent: None,
        name: Some(NameTag::Bullet),
        pose: Some(spec_bullet_pose()),
        tower: None,
        lifetime: Some(spec_bullet_lifetime()),
        visual: Some(Visual::Scene { handle: scene }),
    }
}

/// The model of a recursive despawn: the survivors keep their order and the
/// removed bullets are added to the despawn counter.
pub open spec fn despawn_spec(m: StoreModel, id: u64) -> StoreModel {
    StoreModel {
        entities: despawn_result(m.entities, id),
        next_id: m.next_id,
        spawned_bullets: m.spawned_bullets,
        despawned_bullets: (m.despawned_bullets + bullet_count(m.entities) - bullet_count(
            despawn_result(m.entities, id),
        )) as u64,
    }
}

/// The model of applying one deferred command.
pub open spec fn apply_one(m: StoreModel, c: Command) -> StoreModel {
    match c {
        Command::SpawnBullet { scene } => spawn_spec(m, bullet_bundle(scene)),
        Command::DespawnRecursive { id } => despawn_spec(m, id),
    }
}

/// The model of applying a whole command buffer, front to back.
pub open spec fn apply_all(m: StoreModel, cs: Seq<Command>) -> StoreModel
    decreases cs.len(),
{
    if cs.len() == 0 {
        m
    } else {
        apply_all(apply_one(m, cs.first()), cs.drop_first())
    }
}

/// How many of the commands are spawn requests.
pub open spec fn spawn_count(cs: Seq<Command>) -> int
    decreases cs.len(),
{
    if cs.len() == 0 {
        0
    } else {
        spawn_count(cs.drop_last()) + if cs.last() is SpawnBullet {
            1int
        } else {
            0int
        }
    }
}

/// One whole frame: both systems tick every timer, then the recorded
/// commands — the spawns first, then the despawns — are applied at the frame
/// boundary.
pub open spec fn frame_spec(m: StoreModel, assets: GameAssets, delta: u64) -> StoreModel {
    let after_towers = tick_towers(m.entities, delta);
    let cs = spawn_commands(m.entities, delta, assets.bullet_scene) + despawn_commands(
        after_towers,
        delta,
    );
    apply_all(
        StoreModel { entities: tick_lifetimes(after_towers, delta), ..m },
        cs,
    )
}

/// Counting fires one entity at a time.
proof fn lemma_fired_count_push(s: Seq<EntityRecord>, e: EntityRecord, delta: u64)
    ensures
        fired_count(s.push(e), delta) == fired_count(s, delta) + if tower_fires(e, delta) {
            1int
        } else {
            0int
        },
{
    assert(s.push(e).drop_last() =~= s);
    assert(s.push(e).last() == e);
}

/// Collecting despawn requests one entity at a time.
proof fn lemma_despawn_commands_push(s: Seq<EntityRecord>, e: EntityRecord, delta: u64)
    ensures
        despawn_commands(s.push(e), delta) == if lifetime_expires(e, delta) {
            despawn_commands(s, delta).push(Command::DespawnRecursive { id: e.id })
        } else {
            despawn_commands(s, delta)
        },
{
    assert(s.push(e).drop_last() =~= s);
    assert(s.push(e).last() == e);
}

/// Counting spawn requests one command at a time.
proof fn lemma_spawn_count_push(cs: Seq<Command>, c: Command)
    ensures
        spawn_count(cs.push(c)) == spawn_count(cs) + if c is SpawnBullet {
            1int
        } else {
            0int
        },
{
    assert(cs.push(c).drop_last() =~= cs);
    assert(cs.push(c).last() == c);
}

/// Counting spawn requests from the front instead of the back.
proof fn lemma_spawn_count_first(cs: Seq<Command>)
    requires
        cs.len() > 0,
    ensures
        spawn_count(cs) == spawn_count(cs.drop_first()) + if cs.first() is SpawnBullet {
            1int
        } else {
            0int
        },
    decreases cs.len(),
{
    if cs.len() == 1 {
        assert(cs.drop_first() =~= Seq::<Command>::empty());
        assert(cs.drop_last() =~= Seq::<Command>::empty());
        assert(cs.last() == cs.first());
    } else {
        lemma_spawn_count_first(cs.drop_last());
        assert(cs.drop_last().drop_first() =~= cs.drop_first().drop_last());
        assert(cs.drop_first().last() == cs.last());
        assert(cs.drop_last().first() == cs.first());
    }
}

/// No frame fires more towers than the store holds entities.
proof fn lemma_fired_count_le(s: Seq<EntityRecord>, delta: u64)
    ensures
        0 <= fired_count(s, delta) <= s.len(),
    decreases s.len(),
{
    if s.len() > 0 {
        lemma_fired_count_le(s.drop_last(), delta);
    }
}

/// Every spawn request spawns, so the buffer the tower system records holds
/// exactly as many spawn requests as towers fired.
proof fn lemma_spawn_count_spawns(cs: Seq<Command>)
    requires
        forall|i: int| 0 <= i < cs.len() ==> (#[trigger] cs[i]) is SpawnBullet,
    ensures
        spawn_count(cs) == cs.len(),
    decreases cs.len(),
{
    if cs.len() > 0 {
        lemma_spawn_count_spawns(cs.drop_last());
    }
}

/// Despawn requests are no spawn requests.
proof fn lemma_spawn_count_despawns(s: Seq<EntityRecord>, delta: u64)
    ensures
        spawn_count(despawn_commands(s, delta)) == 0,
    decreases s.len(),
{
    if s.len() > 0 {
        lemma_spawn_count_despawns(s.drop_last(), delta);
        if lifetime_expires(s.last(), delta) {
            lemma_spawn_count_push(
                despawn_commands(s.drop_last(), delta),
                Command::DespawnRecursive { id: s.last().id },
            );
        }
    }
}

/// Spawn requests add up over concatenated buffers.
proof fn lemma_spawn_count_concat(a: Seq<Command>, b: Seq<Command>)
    ensures
        spawn_count(a + b) == spawn_count(a) + spawn_count(b),
    decreases b.len(),
{
    if b.len() == 0 {
        assert(a + b =~= a);
    } else {
        lemma_spawn_count_concat(a, b.drop_last());
        assert((a + b).drop_last() =~= a + b.drop_last());
        assert((a + b).last() == b.last());
    }
}

/// Applying a command buffer raises the spawned-bullets counter and the
/// identity counter by exactly the number of spawn requests in it; despawns
/// touch neither.
proof fn lemma_apply_all_counters(m: StoreModel, cs: Seq<Command>)
    requires
        m.spawned_bullets <= m.next_id,
        m.next_id + spawn_count(cs) <= u64::MAX,
    ensures
        apply_all(m, cs).spawned_bullets == m.spawned_bullets + spawn_count(cs),
        apply_all(m, cs).next_id == m.next_id + spawn_count(cs),
        apply_all(m, cs).spawned_bullets <= apply_all(m, cs).next_id,
    decreases cs.len(),
{
    lemma_spawn_count_nonneg(cs);
    if cs.len() > 0 {
        lemma_spawn_count_first(cs);
        lemma_spawn_count_nonneg(cs.drop_first());
        lemma_apply_all_counters(apply_one(m, cs.first()), cs.drop_first());
    }
}

/// Spawn rate, the bookkeeping half: one frame of a well-formed world raises
/// the spawned-bullets counter by exactly the number of towers whose
/// shooting timer completed during that frame — one bullet per completion,
/// none otherwise.
pub proof fn lemma_frame_spawned(m: StoreModel, assets: GameAssets, delta: u64)
    requires
        m.wf(),
        m.next_id + m.entities.len() <= u64::MAX,
    ensures
        frame_spec(m, assets, delta).spawned_bullets == m.spawned_bullets + fired_count(
            m.entities,
            delta,
        ),
        frame_spec(m, assets, delta).next_id == m.next_id + fired_count(m.entities, delta),
{
    let after_towers = tick_towers(m.entities, delta);
    let sc = spawn_commands(m.entities, delta, assets.bullet_scene);
    let dc = despawn_commands(after_towers, delta);
    lemma_fired_count_le(m.entities, delta);
    assert forall|i: int| 0 <= i < sc.len() implies (#[trigger] sc[i]) is SpawnBullet by {
    }
    lemma_spawn_count_spawns(sc);
    lemma_spawn_count_despawns(after_towers, delta);
    lemma_spawn_count_concat(sc, dc);
    assert(spawn_count(sc + dc) == fired_count(m.entities, delta));
    lemma_apply_all_counters(
        StoreModel { entities: tick_lifetimes(after_towers, delta), ..m },
        sc + dc,
    );
}

/// Each frame, advances every tower's shooting timer by the frame delta and
/// records one bullet-spawn request per completed timer, in store order.
pub fn tower_shooting(store: &mut Store, assets: &GameAssets, delta: u64, commands: &mut Commands)
    requires
        old(store)@.wf(),
    ensures
        final(store)@.entities == tick_towers(old(store)@.entities, delta),
        final(store)@.next_id == old(store)@.next_id,
        final(store)@.spawned_bullets == old(store)@.spawned_bullets,
        final(store)@.despawned_bullets == old(store)@.despawned_bullets,
        final(commands).ops@ == old(commands).ops@ + spawn_commands(
            old(store)@.entities,
            delta,
            assets.bullet_scene,
        ),
        final(store)@.wf(),
{
    let ghost olds = store.entities@;
    let ghost oldops = commands.ops@;
    let n = store.entities.len();
    let mut newv: Vec<EntityRecord> = Vec::new();
    let mut i: usize = 0;
    proof {
        assert(olds.take(0) =~= Seq::<EntityRecord>::empty());
    }
    while i < n
        invariant
            n == olds.len(),
            store.entities@ == olds,
            store.next_id == old(store).next_id,
            store.spawned_bullets == old(store).spawned_bullets,
            store.despawned_bullets == old(store).despawned_bullets,
            old(store)@.wf(),
            i <= n,
            newv@.len() == i,
            forall|j: int| 0 <= j < i ==> #[trigger] newv@[j] == tower_ticked(olds[j], delta),
            commands.ops@ == oldops + spawn_commands(
                olds.take(i as int),
                delta,
                assets.bullet_scene,
            ),
        decreases n - i,
    {
        let ghost ii = i as int;
        let e = store.entities[i];
        proof {
            assert(e == olds[ii]);
            assert(olds.take(ii + 1) =~= olds.take(ii).push(olds[ii]));
            lemma_fired_count_push(olds.take(ii), olds[ii], delta);
            lemma_fired_count_le(olds.take(ii), delta);
        }
        match e.tower {
            Some(tw) => {
                proof {
                    assert(olds[ii].tower is Some);
                    assert(tw.shooting_timer.wf());
                }
                let mut timer = tw.shooting_timer;
                timer.tick(delta);
                if timer.just_finished() {
                    commands.ops.push(Command::SpawnBullet { scene: assets.bullet_scene });
                }
                let rec = EntityRecord { tower: Some(Tower { shooting_timer: timer }), ..e };
                newv.push(rec);
                proof {
                    assert(rec == tower_ticked(olds[ii], delta));
                    assert(tower_fires(olds[ii], delta) == timer.just_finished);
                    assert(commands.ops@ =~= oldops + spawn_commands(
                        olds.take(ii + 1),
                        delta,
                        assets.bullet_scene,
                    ));
                }
            },
            None => {
                newv.push(e);
                proof {
                    assert(e == tower_ticked(olds[ii], delta));
                    assert(!tower_fires(olds[ii], delta));
                    assert(commands.ops@ =~= oldops + spawn_commands(
                        olds.take(ii + 1),
                        delta,
                        assets.bullet_scene,
                    ));
                }
            },
        }
        i = i + 1;
    }
    store.entities = newv;
    proof {
        assert(olds.take(n as int) =~= olds);
        assert(store.entities@ =~= tick_towers(olds, delta));
        lemma_systems_wf_preserved(old(store)@, store@);
    }
}

/// Each frame, advances every bullet's lifetime timer by the frame delta and
/// records one recursive-despawn request per completed lifetime, in store
/// order.
pub fn bullet_despawn(store: &mut Store, delta: u64, commands: &mut Commands)
    requires
        old(store)@.wf(),
    ensures
        final(store)@.entities == tick_lifetimes(old(store)@.entities, delta),
        final(store)@.next_id == old(store)@.next_id,
        final(store)@.spawned_bullets == old(store)@.spawned_bullets,
        final(store)@.despawned_bullets == old(store)@.despawned_bullets,
        final(commands).ops@ == old(commands).ops@ + despawn_commands(
            old(store)@.entities,
            delta,
        ),
        final(store)@.wf(),
{
    let ghost olds = store.entities@;
    let ghost oldops = commands.ops@;
    let n = store.entities.len();
    let mut newv: Vec<EntityRecord> = Vec::new();
    let mut i: usize = 0;
    proof {
        assert(olds.take(0) =~= Seq::<EntityRecord>::empty());
    }
    while i < n
        invariant
            n == olds.len(),
            store.entities@ == olds,
            store.next_id == old(store).next_id,
            store.spawned_bullets == old(store).spawned_bullets,
            store.despawned_bullets == old(store).despawned_bullets,
            old(store)@.wf(),
            i <= n,
            newv@.len() == i,
            forall|j: int| 0 <= j < i ==> #[trigger] newv@[j] == lifetime_ticked(olds[j], delta),
            commands.ops@ == oldops + despawn_commands(olds.take(i as int), delta),
        decreases n - i,
    {
        let ghost ii = i as int;
        let e = store.entities[i];
        proof {
            assert(e == olds[ii]);
            assert(olds.take(ii + 1) =~= olds.take(ii).push(olds[ii]));
            lemma_despawn_commands_push(olds.take(ii), olds[ii], delta);
        }
        match e.lifetime {
            Some(lt) => {
                proof {
                    assert(olds[ii].lifetime is Some);
                    assert(lt.timer.wf());
                }
                let mut timer = lt.timer;
                timer.tick(delta);
                if timer.just_finished() {
                    commands.ops.push(Command::DespawnRecursive { id: e.id });
                }
                let rec = EntityRecord { lifetime: Some(Lifetime { timer }), ..e };
                newv.push(rec);
                proof {
                    assert(rec == lifetime_ticked(olds[ii], delta));
                    assert(lifetime_expires(olds[ii], delta) == timer.just_finished);
                    assert(commands.ops@ =~= oldops + despawn_commands(olds.take(ii + 1), delta));
                }
            },
            None => {
                newv.push(e);
                proof {
                    assert(e == lifetime_ticked(olds[ii], delta));
                    assert(!lifetime_expires(olds[ii], delta));
                    assert(commands.ops@ =~= oldops + despawn_commands(olds.take(ii + 1), delta));
                }
            },
        }
        i = i + 1;
    }
    store.entities = newv;
    proof {
        assert(olds.take(n as int) =~= olds);
        assert(store.entities@ =~= tick_lifetimes(olds, delta));
        lemma_systems_wf_preserved(old(store)@, store@);
    }
}

/// A system pass that only advances timers in place — identities, parents,
/// component presence and counters untouched — keeps the store well formed.
proof fn lemma_systems_wf_preserved(m0: StoreModel, m1: StoreModel)
    requires
        m0.wf(),
        m1.next_id == m0.next_id,
        m1.spawned_bullets == m0.spawned_bullets,
        m1.despawned_bullets == m0.despawned_bullets,
        m1.entities.len() == m0.entities.len(),
        forall|i: int|
            0 <= i < m0.entities.len() ==> {
                let e0 = #[trigger] m0.entities[i];
                let e1 = #[trigger] m1.entities[i];
                &&& e1.id == e0.id
                &&& e1.parent == e0.parent
                &&& e1.tower is Some == e0.tower is Some
                &&& e1.lifetime is Some == e0.lifetime is Some
                &&& (e1.tower is Some ==> {
                    &&& e1.tower->0.shooting_timer.wf()
                    &&& e1.tower->0.shooting_timer.mode == e0.tower->0.shooting_timer.mode
                })
                &&& (e1.lifetime is Some ==> {
                    &&& e1.lifetime->0.timer.wf()
                    &&& e1.lifetime->0.timer.mode == e0.lifetime->0.timer.mode
                })
            },
    ensures
        m1.wf(),
{
    lemma_bullet_count_pointwise(m0.entities, m1.entities);
    assert forall|i: int|
        0 <= i < m1.entities.len() implies (#[trigger] m1.entities[i]).id < m1.next_id by {
        assert(m0.entities[i].id < m0.next_id);
    }
    assert forall|i: int, j: int|
        0 <= i < j < m1.entities.len() implies (#[trigger] m1.entities[i]).id < (
    #[trigger] m1.entities[j]).id by {
        assert(m0.entities[i].id < m0.entities[j].id);
    }
    assert forall|i: int|
        0 <= i < m1.entities.len() && (#[trigger] m1.entities[i]).parent is Some implies exists|
        j: int,
    | 0 <= j < i && (#[trigger] m1.entities[j]).id == m1.entities[i].parent->0 by {
        assert(m0.entities[i].parent is Some);
        let j = choose|j: int|
            0 <= j < i && (#[trigger] m0.entities[j]).id == m0.entities[i].parent->0;
        assert(m1.entities[j].id == m1.entities[i].parent->0);
    }
    assert forall|i: int|
        0 <= i < m1.entities.len() && (#[trigger] m1.entities[i]).tower is Some implies {
        &&& m1.entities[i].tower->0.shooting_timer.wf()
        &&& m1.entities[i].tower->0.shooting_timer.mode == TimerMode::Repeating
    } by {
        assert(m0.entities[i].tower is Some);
        assert(m0.entities[i].tower->0.shooting_timer.mode == TimerMode::Repeating);
    }
    assert forall|i: int|
        0 <= i < m1.entities.len() && (#[trigger] m1.entities[i]).lifetime is Some implies {
        &&& m1.entities[i].lifetime->0.timer.wf()
        &&& m1.entities[i].lifetime->0.timer.mode == TimerMode::OneShot
    } by {
        assert(m0.entities[i].lifetime is Some);
        assert(m0.entities[i].lifetime->0.timer.mode == TimerMode::OneShot);
    }
}

/// Applies a whole command buffer to the store at the frame boundary: the
/// deferred spawns and recursive despawns, in the order they were recorded.
pub fn apply_commands(store: &mut Store, commands: Commands)
    requires
        old(store)@.wf(),
        old(store)@.next_id + spawn_count(commands.ops@) <= u64::MAX,
    ensures
        final(store)@ == apply_all(old(store)@, commands.ops@),
        final(store)@.wf(),
{
    let ghost all = commands.ops@;
    let n = commands.ops.len();
    let mut i: usize = 0;
    proof {
        assert(all.skip(0) =~= all);
    }
    while i < n
        invariant
            n == all.len(),
            commands.ops@ == all,
            i <= n,
            store@.wf(),
            apply_all(old(store)@, all) == apply_all(store@, all.skip(i as int)),
            store@.next_id + spawn_count(all.skip(i as int)) <= u64::MAX,
        decreases n - i,
    {
        let ghost ii = i as int;
        let ghost pre = store@;
        let c = commands.ops[i];
        proof {
            assert(c == all[ii]);
            assert(all.skip(ii).len() > 0);
            assert(all.skip(ii).first() == all[ii]);
            assert(all.skip(ii).drop_first() =~= all.skip(ii + 1));
            lemma_spawn_count_first(all.skip(ii));
            lemma_spawn_count_nonneg(all.skip(ii + 1));
        }
        match c {
            Command::SpawnBullet { scene } => {
                let bundle = Bundle {
                    parent: None,
                    name: Some(NameTag::Bullet),
                    pose: Some(bullet_pose()),
                    tower: None,
                    lifetime: Some(bullet_lifetime()),
                    visual: Some(Visual::Scene { handle: scene }),
                };
                store.spawn(bundle);
                proof {
                    assert(bundle == bullet_bundle(scene));
                    assert(store@ == apply_one(pre, c));
                }
            },
            Command::DespawnRecursive { id } => {
                store.despawn_recursive(id);
                proof {
                    assert(store@.despawned_bullets == pre.despawned_bullets + bullet_count(
                        pre.entities,
                    ) - bullet_count(despawn_result(pre.entities, id)));
                    assert(store@ == apply_one(pre, c));
                }
            },
        }
        proof {
            assert(apply_all(pre, all.skip(ii)) == apply_all(store@, all.skip(ii + 1)));
        }
        i = i + 1;
    }
    proof {
        assert(all.skip(n as int) =~= Seq::<Command>::empty());
        assert(apply_all(store@, all.skip(n as int)) == store@);
    }
}

/// A spawn count is never negative.
proof fn lemma_spawn_count_nonneg(cs: Seq<Command>)
    ensures
        spawn_count(cs) >= 0,
    decreases cs.len(),
{
    if cs.len() > 0 {
        lemma_spawn_count_nonneg(cs.drop_last());
    }
}

/// One whole frame of the simulation, the per-frame scheduling contract:
/// the tower system, then the bullet-lifetime system, then the deferred
/// commands at the frame boundary, exactly as [`frame_spec`] states.
///
/// The identity headroom in the requires is a machine limit: every firing
/// tower consumes one fresh identity, and there are at most as many firing
/// towers as entities.
pub fn update(store: &mut Store, assets: &GameAssets, delta: u64)
    requires
        old(store)@.wf(),
        old(store)@.next_id + old(store)@.entities.len() <= u64::MAX,
    ensures
        final(store)@ == frame_spec(old(store)@, *assets, delta),
        final(store)@.wf(),
{
    let ghost m0 = store@;
    let mut commands = Commands::new();
    tower_shooting(store, assets, delta, &mut commands);
    let ghost sc = commands.ops@;
    proof {
        assert(sc =~= spawn_commands(m0.entities, delta, assets.bullet_scene));
    }
    bullet_despawn(store, delta, &mut commands);
    proof {
        let after_towers = tick_towers(m0.entities, delta);
        assert(commands.ops@ == sc + despawn_commands(after_towers, delta));
        assert(store@ == (StoreModel { entities: tick_lifetimes(after_towers, delta), ..m0 }));
        lemma_spawn_count_concat(sc, despawn_commands(after_towers, delta));
        lemma_spawn_count_despawns(after_towers, delta);
        assert forall|i: int| 0 <= i < sc.len() implies (#[trigger] sc[i]) is SpawnBullet by {
        }
        lemma_spawn_count_spawns(sc);
        lemma_fired_count_le(m0.entities, delta);
        assert(spawn_count(commands.ops@) <= m0.entities.len());
    }
    apply_commands(store, commands);
}

/// Seeds the scene with the camera: placed at (−2.0, 2.5, 5.0) world units,
/// looking at the world origin with world-up +Y.
pub open spec fn camera_bundle() -> Bundle {
    Bundle {
        parent: None,
        name: None,
        pose: Some(
            Pose {
                translation: Vec3Milli { x: -2000i64, y: 2500, z: 5000 },
                rotation: Rotation::LookingAt { target: Vec3Milli { x: 0, y: 0, z: 0 } },
                scale: Vec3Milli { x: 1000, y: 1000, z: 1000 },
            },
        ),
        tower: None,
        lifetime: None,
        visual: Some(Visual::Camera),
    }
}

/// The ground: a solid blue plane with normal +Y and unit half extents.
pub open spec fn ground_bundle() -> Bundle {
    Bundle {
        parent: None,
        name: None,
        pose: Some(
            Pose {
                translation: Vec3Milli { x: 0, y: 0, z: 0 },
                rotation: Rotation::Identity,
                scale: Vec3Milli { x: 1000, y: 1000, z: 1000 },
            },
        ),
        tower: None,
        lifetime: None,
        visual: Some(
            Visual::Plane {
                half_extent_x: 1000,
                half_extent_z: 1000,
                color: ColorMilli { red: 0, green: 0, blue: 1000 },
            },
        ),
    }
}

/// The point light at (4, 8, 4) world units, intensity 1500, casting shadows.
pub open spec fn light_bundle() -> Bundle {
    Bundle {
        parent: None,
        name: None,
        pose: Some(
            Pose {
                translation: Vec3Milli { x: 4000, y: 8000, z: 4000 },
                rotation: Rotation::Identity,
                scale: Vec3Milli { x: 1000, y: 1000, z: 1000 },
            },
        ),
        tower: None,
        lifetime: None,
        visual: Some(Visual::PointLight { intensity: 1500, shadows_enabled: true }),
    }
}

/// The tower: a magenta 0.2 × 1.0 × 0.2 cuboid at (0, 0.5, 0) world units
/// with a one-second repeating shooting timer.
pub open spec fn tower_bundle() -> Bundle {
    Bundle {
        parent: None,
        name: Some(NameTag::Tower),
        pose: Some(
            Pose {
                translation: Vec3Milli { x: 0, y: 500, z: 0 },
                rotation: Rotation::Identity,
                scale: Vec3Milli { x: 1000, y: 1000, z: 1000 },
            },
        ),
        tower: Some(
            Tower {
                shooting_timer: Timer {
                    elapsed: 0,
                    period: P_FIRE,
                    mode: TimerMode::Repeating,
                    just_finished: false,
                },
            },
        ),
        lifetime: None,
        visual: Some(
            Visual::Cuboid {
                size: Vec3Milli { x: 200, y: 1000, z: 200 },
                color: ColorMilli { red: 1000, green: 0, blue: 1000 },
            },
        ),
    }
}

/// Startup: spawns the camera.
pub fn spawn_camera(store: &mut Store)
    requires
        old(store)@.wf(),
        old(store)@.next_id < u64::MAX,
    ensures
        final(store)@ == spawn_spec(old(store)@, camera_bundle()),
        final(store)@.wf(),
{
    let bundle = Bundle {
        parent: None,
        name: None,
        pose: Some(
            Pose {
                translation: Vec3Milli { x: -2000i64, y: 2500, z: 5000 },
                rotation: Rotation::LookingAt { target: Vec3Milli { x: 0, y: 0, z: 0 } },
                scale: Vec3Milli { x: 1000, y: 1000, z: 1000 },
            },
        ),
        tower: None,
        lifetime: None,
        visual: Some(Visual::Camera),
    };
    store.spawn(bundle);
}

/// Startup: spawns the basic scene — the ground plane, the point light, and
/// the one tower, in that order.
pub fn spawn_basic_scene(store: &mut Store)
    requires
        old(store)@.wf(),
        old(store)@.next_id + 3 <= u64::MAX,
    ensures
        final(store)@ == spawn_spec(
            spawn_spec(spawn_spec(old(store)@, ground_bundle()), light_bundle()),
            tower_bundle(),
        ),
        final(store)@.wf(),
{
    let ground = Bundle {
        parent: None,
        name: None,
        pose: Some(
            Pose {
                translation: Vec3Milli { x: 0, y: 0, z: 0 },
                rotation: Rotation::Identity,
                scale: Vec3Milli { x: 1000, y: 1000, z: 1000 },
            },
        ),
        tower: None,
        lifetime: None,
        visual: Some(
            Visual::Plane {
                half_extent_x: 1000,
                half_extent_z: 1000,
                color: ColorMilli { red: 0, green: 0, blue: 1000 },
            },
        ),
    };
    store.spawn(ground);
    let light = Bundle {
        parent: None,
        name: None,
        pose: Some(
            Pose {
                translation: Vec3Milli { x: 4000, y: 8000, z: 4000 },
                rotation: Rotation::Identity,
                scale: Vec3Milli { x: 1000, y: 1000, z: 1000 },
            },
        ),
        tower: None,
        lifetime: None,
        visual: Some(Visual::PointLight { intensity: 1500, shadows_enabled: true }),
    };
    store.spawn(light);
    let tower = Bundle {
        parent: None,
        name: Some(NameTag::Tower),
        pose: Some(
            Pose {
                translation: Vec3Milli { x: 0, y: 500, z: 0 },
                rotation: Rotation::Identity,
                scale: Vec3Milli { x: 1000, y: 1000, z: 1000 },
            },
        ),
        tower: Some(Tower { shooting_timer: Timer::new(P_FIRE, TimerMode::Repeating) }),
        lifetime: None,
        visual: Some(
            Visual::Cuboid {
                size: Vec3Milli { x: 200, y: 1000, z: 200 },
                color: ColorMilli { red: 1000, green: 0, blue: 1000 },
            },
        ),
    };
    store.spawn(tower);
}


/// A world that holds exactly one tower: it stands at position `j`, its
/// repeating shooting timer is well formed, it carries no lifetime, and its
/// identity is unique and already allocated.  No entity has a parent — true
/// of every world this prototype builds, where children only ever hang below
/// bullets — so recursive despawns remove exactly their target.
pub open spec fn lone_tower(m: StoreModel, j: int) -> bool {
    &&& 0 <= j < m.entities.len()
    &&& m.entities[j].tower is Some
    &&& m.entities[j].tower->0.shooting_timer.wf()
    &&& m.entities[j].tower->0.shooting_timer.mode == TimerMode::Repeating
    &&& m.entities[j].lifetime is None
    &&& m.entities[j].id < m.next_id
    &&& forall|i: int|
        0 <= i < m.entities.len() && i != j ==> (#[trigger] m.entities[i]).tower is None
    &&& forall|i: int|
        0 <= i < m.entities.len() && i != j ==> (#[trigger] m.entities[i]).id
            != m.entities[j].id
    &&& forall|i: int| 0 <= i < m.entities.len() ==> (#[trigger] m.entities[i]).parent is None
    &&& m.spawned_bullets <= m.next_id
}

/// A world without towers fires nothing.
proof fn lemma_fired_count_none(s: Seq<EntityRecord>, delta: u64)
    requires
        forall|i: int| 0 <= i < s.len() ==> (#[trigger] s[i]).tower is None,
    ensures
        fired_count(s, delta) == 0,
    decreases s.len(),
{
    if s.len() > 0 {
        lemma_fired_count_none(s.drop_last(), delta);
        assert(s.last() == s[s.len() - 1]);
    }
}

/// With a single tower at `j`, the fired count is that tower's alone.
proof fn lemma_fired_count_single(s: Seq<EntityRecord>, delta: u64, j: int)
    requires
        0 <= j < s.len(),
        forall|i: int| 0 <= i < s.len() && i != j ==> (#[trigger] s[i]).tower is None,
    ensures
        fired_count(s, delta) == if tower_fires(s[j], delta) {
            1int
        } else {
            0int
        },
    decreases s.len(),
{
    if j == s.len() - 1 {
        assert(forall|i: int|
            0 <= i < s.drop_last().len() ==> (#[trigger] s.drop_last()[i]).tower is None);
        lemma_fired_count_none(s.drop_last(), delta);
        assert(s.last() == s[j]);
    } else {
        lemma_fired_count_single(s.drop_last(), delta, j);
        assert(s.drop_last()[j] == s[j]);
        assert(s.last() == s[s.len() - 1]);
        assert(!tower_fires(s.last(), delta));
    }
}

/// Every despawn request the bullet-lifetime system records names the
/// identity of an entity whose lifetime completes this frame.
proof fn lemma_despawn_commands_targets(s: Seq<EntityRecord>, delta: u64)
    ensures
        forall|k: int|
            0 <= k < despawn_commands(s, delta).len() ==> exists|x: int|
                0 <= x < s.len() && (#[trigger] despawn_commands(s, delta)[k]) == (
                Command::DespawnRecursive { id: s[x].id }) && s[x].lifetime is Some
                    && lifetime_expires(s[x], delta),
    decreases s.len(),
{
    if s.len() > 0 {
        lemma_despawn_commands_targets(s.drop_last(), delta);
        let prev = despawn_commands(s.drop_last(), delta);
        let dc = despawn_commands(s, delta);
        assert forall|k: int| 0 <= k < dc.len() implies exists|x: int|
            0 <= x < s.len() && (#[trigger] dc[k]) == (Command::DespawnRecursive { id: s[x].id })
                && s[x].lifetime is Some && lifetime_expires(s[x], delta) by {
            if k < prev.len() {
                assert(dc[k] == prev[k]);
                let x = choose|x: int|
                    0 <= x < s.drop_last().len() && (#[trigger] prev[k]) == (
                    Command::DespawnRecursive { id: s.drop_last()[x].id }) && s.drop_last()[x].lifetime
                        is Some && lifetime_expires(s.drop_last()[x], delta);
                assert(s.drop_last()[x] == s[x]);
                assert(dc[k] == (Command::DespawnRecursive { id: s[x].id }));
            } else {
                assert(lifetime_expires(s.last(), delta));
                assert(s.last() == s[s.len() - 1]);
                assert(dc[k] == (Command::DespawnRecursive { id: s[s.len() - 1].id }));
            }
        }
    }
}

/// Applying a frame's command buffer to a lone-tower world leaves the tower
/// record untouched at some position and moves the counters by exactly the
/// number of spawn requests.
proof fn lemma_apply_lone(m: StoreModel, cs: Seq<Command>, j: int) -> (j2: int)
    requires
        lone_tower(m, j),
        m.next_id + spawn_count(cs) <= u64::MAX,
        forall|k: int|
            0 <= k < cs.len() ==> ((#[trigger] cs[k]) matches Command::DespawnRecursive { id }
                ==> id != m.entities[j].id),
    ensures
        lone_tower(apply_all(m, cs), j2),
        apply_all(m, cs).entities[j2] == m.entities[j],
        apply_all(m, cs).spawned_bullets == m.spawned_bullets + spawn_count(cs),
        apply_all(m, cs).next_id == m.next_id + spawn_count(cs),
    decreases cs.len(),
{
    lemma_spawn_count_nonneg(cs);
    if cs.len() == 0 {
        j
    } else {
        lemma_spawn_count_first(cs);
        lemma_spawn_count_nonneg(cs.drop_first());
        let c = cs.first();
        let tid = m.entities[j].id;
        match c {
            Command::SpawnBullet { scene } => {
                let m1 = spawn_spec(m, bullet_bundle(scene));
                assert(m1.entities == m.entities.push(
                    crate::store::record_of(bullet_bundle(scene), m.next_id),
                ));
                assert(m1.entities[j] == m.entities[j]);
                assert(m1.entities[m.entities.len() as int].tower is None);
                assert(m1.entities[m.entities.len() as int].parent is None);
                assert(m1.entities[m.entities.len() as int].id == m.next_id);
                assert(lone_tower(m1, j));
                assert(forall|k: int|
                    0 <= k < cs.drop_first().len() ==> #[trigger] cs.drop_first()[k] == cs[
                    k + 1]);
                let j2 = lemma_apply_lone(m1, cs.drop_first(), j);
                assert(apply_all(m, cs) == apply_all(m1, cs.drop_first()));
                j2
            },
            Command::DespawnRecursive { id } => {
                assert(id != tid);
                let m1 = despawn_spec(m, id);
                let jd = crate::store::lemma_survivors_flat(
                    m.entities,
                    id,
                    m.entities.len() as int,
                    j,
                );
                assert(m1.entities == crate::store::despawn_result(m.entities, id));
                assert(m1.entities[jd] == m.entities[j]);
                assert forall|i: int|
                    0 <= i < m1.entities.len() && i != jd implies (#[trigger] m1.entities[i]).tower
                    is None && m1.entities[i].id != m1.entities[jd].id && m1.entities[i].parent
                    is None by {
                    let x = choose|x: int|
                        0 <= x < m.entities.len() && x != j && #[trigger] m1.entities[i]
                            == m.entities[x];
                    assert(m.entities[x].tower is None);
                    assert(m.entities[x].id != tid);
                    assert(m.entities[x].parent is None);
                }
                assert(m1.entities[jd].parent is None);
                assert(lone_tower(m1, jd));
                assert(forall|k: int|
                    0 <= k < cs.drop_first().len() ==> #[trigger] cs.drop_first()[k] == cs[
                    k + 1]);
                let j2 = lemma_apply_lone(m1, cs.drop_first(), jd);
                assert(apply_all(m, cs) == apply_all(m1, cs.drop_first()));
                j2
            },
        }
    }
}

/// One frame of a lone-tower world: the tower's shooting timer advances by
/// exactly one tick, and exactly one bullet is spawned when that tick
/// completes the timer, none otherwise.
proof fn lemma_frame_lone(m: StoreModel, assets: GameAssets, delta: u64, j: int) -> (j2: int)
    requires
        lone_tower(m, j),
        m.next_id < u64::MAX,
    ensures
        ({
            let m2 = frame_spec(m, assets, delta);
            let t0 = m.entities[j].tower->0.shooting_timer;
            let fired = spec_tick(t0, delta).just_finished;
            &&& lone_tower(m2, j2)
            &&& m2.entities[j2].tower->0.shooting_timer == spec_tick(t0, delta)
            &&& m2.entities[j2].id == m.entities[j].id
            &&& m2.spawned_bullets == m.spawned_bullets + if fired {
                1int
            } else {
                0int
            }
            &&& m2.next_id == m.next_id + if fired {
                1int
            } else {
                0int
            }
        }),
{
    let s0 = m.entities;
    let t0 = s0[j].tower->0.shooting_timer;
    let s1 = tick_towers(s0, delta);
    let s2 = tick_lifetimes(s1, delta);
    let mt = StoreModel { entities: s2, ..m };
    let fired = spec_tick(t0, delta).just_finished;
    lemma_spec_tick_wf(t0, delta);
    assert(s1[j] == tower_ticked(s0[j], delta));
    assert(s2[j] == s1[j]);
    assert(s2[j].tower->0.shooting_timer == spec_tick(t0, delta));
    assert forall|i: int| 0 <= i < s2.len() implies {
        &&& (#[trigger] s2[i]).id == s0[i].id
        &&& s2[i].parent == s0[i].parent
        &&& (s2[i].tower is Some) == (s0[i].tower is Some)
        &&& (s2[i].lifetime is Some) == (s0[i].lifetime is Some)
    } by {
        assert(s1[i] == tower_ticked(s0[i], delta));
        assert(s2[i] == lifetime_ticked(s1[i], delta));
    }
    assert(lone_tower(mt, j));
    lemma_fired_count_single(s0, delta, j);
    assert(tower_fires(s0[j], delta) == fired);
    let k = fired_count(s0, delta);
    let sc = spawn_commands(s0, delta, assets.bullet_scene);
    let dc = despawn_commands(s1, delta);
    assert forall|i: int| 0 <= i < sc.len() implies (#[trigger] sc[i]) is SpawnBullet by {
    }
    lemma_spawn_count_spawns(sc);
    lemma_spawn_count_despawns(s1, delta);
    lemma_spawn_count_concat(sc, dc);
    assert(spawn_count(sc + dc) == k);
    lemma_despawn_commands_targets(s1, delta);
    assert forall|idx: int|
        0 <= idx < (sc + dc).len() implies ((#[trigger] (sc + dc)[idx]) matches
        Command::DespawnRecursive { id } ==> id != mt.entities[j].id) by {
        if idx < sc.len() {
            assert((sc + dc)[idx] == sc[idx]);
        } else {
            assert((sc + dc)[idx] == dc[idx - sc.len()]);
            let x = choose|x: int|
                0 <= x < s1.len() && (#[trigger] dc[idx - sc.len()]) == (
                Command::DespawnRecursive { id: s1[x].id }) && s1[x].lifetime is Some;
            assert(s1[x] == tower_ticked(s0[x], delta));
            assert(s0[x].lifetime is Some);
            assert(x != j);
            assert(s1[x].id == s0[x].id);
            assert(s0[x].id != s0[j].id);
        }
    }
    let j2 = lemma_apply_lone(mt, sc + dc, j);
    assert(frame_spec(m, assets, delta) == apply_all(mt, sc + dc));
    j2
}

/// The store after running a whole sequence of frames.
pub open spec fn run_frames(m: StoreModel, assets: GameAssets, deltas: Seq<u64>) -> StoreModel
    decreases deltas.len(),
{
    if deltas.len() == 0 {
        m
    } else {
        frame_spec(run_frames(m, assets, deltas.drop_last()), assets, deltas.last())
    }
}

/// Running frames over a lone-tower world drives the tower's shooting timer
/// through exactly the given delta sequence and spawns one bullet per timer
/// completion: the spawned-bullets counter rises by exactly the timer's
/// fire count.
proof fn lemma_run_lone(m: StoreModel, assets: GameAssets, deltas: Seq<u64>, j: int) -> (j2: int)
    requires
        lone_tower(m, j),
        m.next_id + deltas.len() <= u64::MAX,
    ensures
        ({
            let m2 = run_frames(m, assets, deltas);
            let t0 = m.entities[j].tower->0.shooting_timer;
            &&& lone_tower(m2, j2)
            &&& m2.entities[j2].tower->0.shooting_timer == spec_ticks(t0, deltas)
            &&& m2.spawned_bullets == m.spawned_bullets + fire_count(t0, deltas)
            &&& m2.next_id <= m.next_id + deltas.len()
        }),
    decreases deltas.len(),
{
    if deltas.len() == 0 {
        j
    } else {
        let jp = lemma_run_lone(m, assets, deltas.drop_last(), j);
        let rm = run_frames(m, assets, deltas.drop_last());
        let t0 = m.entities[j].tower->0.shooting_timer;
        assert(rm.next_id < u64::MAX);
        let j2 = lemma_frame_lone(rm, assets, deltas.last(), jp);
        assert(run_frames(m, assets, deltas) == frame_spec(rm, assets, deltas.last()));
        j2
    }
}

/// Spawn rate: in a world holding exactly one tower with a fresh shooting
/// timer, running any number of frames whose deltas are positive and at
/// most one firing period spawns exactly ⌊Σδ / P_fire⌋ bullets — over an
/// interval of constant delta Δ and length T = n·Δ, exactly ⌊T / P_fire⌋.
pub proof fn lemma_spawn_rate_single_tower(
    m: StoreModel,
    assets: GameAssets,
    deltas: Seq<u64>,
    j: int,
)
    requires
        lone_tower(m, j),
        m.entities[j].tower->0.shooting_timer.elapsed == 0,
        forall|i: int|
            0 <= i < deltas.len() ==> 0 < #[trigger] deltas[i]
                <= m.entities[j].tower->0.shooting_timer.period,
        m.next_id + deltas.len() <= u64::MAX,
    ensures
        run_frames(m, assets, deltas).spawned_bullets == m.spawned_bullets + delta_sum(deltas)
            / (m.entities[j].tower->0.shooting_timer.period as int),
{
    let t0 = m.entities[j].tower->0.shooting_timer;
    let j2 = lemma_run_lone(m, assets, deltas, j);
    lemma_repeating_fire_count(t0, deltas);
}


/// A world of bullets alone: no towers and no parents, identities pairwise
/// distinct and below the identity counter, every lifetime a well-formed
/// one-shot timer.  The bullet-lifetime system acts on such a world with no
/// tower interfering, which isolates how long a bullet lives.
pub open spec fn bullet_world(m: StoreModel) -> bool {
    &&& forall|i: int| 0 <= i < m.entities.len() ==> (#[trigger] m.entities[i]).tower is None
    &&& forall|i: int| 0 <= i < m.entities.len() ==> (#[trigger] m.entities[i]).parent is None
    &&& forall|i: int| 0 <= i < m.entities.len() ==> (#[trigger] m.entities[i]).id < m.next_id
    &&& forall|i: int, k: int|
        0 <= i < k < m.entities.len() ==> (#[trigger] m.entities[i]).id != (
        #[trigger] m.entities[k]).id
    &&& forall|i: int|
        0 <= i < m.entities.len() && (#[trigger] m.entities[i]).lifetime is Some ==> {
            &&& m.entities[i].lifetime->0.timer.wf()
            &&& m.entities[i].lifetime->0.timer.mode == TimerMode::OneShot
        }
}

/// Applying despawn-only commands keeps a bullet world a bullet world and
/// leaves the identity counter alone.
proof fn lemma_apply_bullet_world(m: StoreModel, cs: Seq<Command>)
    requires
        bullet_world(m),
        forall|k: int| 0 <= k < cs.len() ==> (#[trigger] cs[k]) is DespawnRecursive,
    ensures
        bullet_world(apply_all(m, cs)),
        apply_all(m, cs).next_id == m.next_id,
    decreases cs.len(),
{
    if cs.len() > 0 {
        match cs.first() {
            Command::SpawnBullet { scene } => {
                assert(cs[0] is DespawnRecursive);
                assert(false);
            },
            Command::DespawnRecursive { id } => {
                let m1 = despawn_spec(m, id);
                let n = m.entities.len() as int;
                crate::store::lemma_survivors_origin(m.entities, id, n);
                crate::store::lemma_survivors_distinct(m.entities, id, n);
                assert forall|i: int| 0 <= i < m1.entities.len() implies {
                    &&& (#[trigger] m1.entities[i]).tower is None
                    &&& m1.entities[i].parent is None
                    &&& m1.entities[i].id < m1.next_id
                    &&& (m1.entities[i].lifetime is Some ==> {
                        &&& m1.entities[i].lifetime->0.timer.wf()
                        &&& m1.entities[i].lifetime->0.timer.mode == TimerMode::OneShot
                    })
                } by {
                    let x = choose|x: int| 0 <= x < n && #[trigger] m1.entities[i] == m.entities[x];
                    assert(m.entities[x].tower is None);
                    assert(m.entities[x].parent is None);
                }
                assert(bullet_world(m1));
                assert(forall|k: int|
                    0 <= k < cs.drop_first().len() ==> #[trigger] cs.drop_first()[k] == cs[k + 1]);
                lemma_apply_bullet_world(m1, cs.drop_first());
            },
        }
    }
}

/// Applying despawn-only commands that never target the given position's
/// identity keeps that record, unchanged, at some position.
proof fn lemma_apply_keeps(m: StoreModel, cs: Seq<Command>, b: int) -> (b2: int)
    requires
        forall|i: int| 0 <= i < m.entities.len() ==> (#[trigger] m.entities[i]).parent is None,
        forall|k: int| 0 <= k < cs.len() ==> (#[trigger] cs[k]) is DespawnRecursive,
        forall|k: int|
            0 <= k < cs.len() ==> ((#[trigger] cs[k]) matches Command::DespawnRecursive { id }
                ==> id != m.entities[b].id),
        0 <= b < m.entities.len(),
    ensures
        0 <= b2 < apply_all(m, cs).entities.len(),
        apply_all(m, cs).entities[b2] == m.entities[b],
    decreases cs.len(),
{
    if cs.len() == 0 {
        b
    } else {
        match cs.first() {
            Command::SpawnBullet { scene } => {
                assert(cs[0] is DespawnRecursive);
                assert(false);
                b
            },
            Command::DespawnRecursive { id } => {
                assert(id != m.entities[b].id);
                let m1 = despawn_spec(m, id);
                let n = m.entities.len() as int;
                let jd = crate::store::lemma_survivors_flat(m.entities, id, n, b);
                crate::store::lemma_survivors_origin(m.entities, id, n);
                assert forall|i: int|
                    0 <= i < m1.entities.len() implies (#[trigger] m1.entities[i]).parent
                    is None by {
                    let x = choose|x: int| 0 <= x < n && #[trigger] m1.entities[i] == m.entities[x];
                }
                assert(forall|k: int|
                    0 <= k < cs.drop_first().len() ==> #[trigger] cs.drop_first()[k] == cs[k + 1]);
                let b2 = lemma_apply_keeps(m1, cs.drop_first(), jd);
                assert(apply_all(m, cs) == apply_all(m1, cs.drop_first()));
                b2
            },
        }
    }
}

/// Applying despawn-only commands to a world that holds no entity with the
/// given identity cannot bring it back.
proof fn lemma_apply_absent(m: StoreModel, cs: Seq<Command>, bid: u64)
    requires
        !contains_id(m.entities, bid),
        forall|k: int| 0 <= k < cs.len() ==> (#[trigger] cs[k]) is DespawnRecursive,
    ensures
        !contains_id(apply_all(m, cs).entities, bid),
    decreases cs.len(),
{
    if cs.len() > 0 {
        match cs.first() {
            Command::SpawnBullet { scene } => {
                assert(cs[0] is DespawnRecursive);
                assert(false);
            },
            Command::DespawnRecursive { id } => {
                let m1 = despawn_spec(m, id);
                let n = m.entities.len() as int;
                crate::store::lemma_survivors_origin(m.entities, id, n);
                assert forall|i: int|
                    0 <= i < m1.entities.len() implies (#[trigger] m1.entities[i]).id != bid by {
                    let x = choose|x: int| 0 <= x < n && #[trigger] m1.entities[i] == m.entities[x];
                    assert(m.entities[x].id != bid);
                }
                assert(forall|k: int|
                    0 <= k < cs.drop_first().len() ==> #[trigger] cs.drop_first()[k] == cs[k + 1]);
                lemma_apply_absent(m1, cs.drop_first(), bid);
            },
        }
    }
}

/// Despawning what the identity of an entity at some position names removes
/// every record with that identity, and despawn-only commands that include
/// such a target leave none behind.
proof fn lemma_apply_removes(m: StoreModel, cs: Seq<Command>, bid: u64)
    requires
        forall|i: int| 0 <= i < m.entities.len() ==> (#[trigger] m.entities[i]).parent is None,
        forall|k: int| 0 <= k < cs.len() ==> (#[trigger] cs[k]) is DespawnRecursive,
        exists|k: int| 0 <= k < cs.len() && #[trigger] cs[k] == (Command::DespawnRecursive { id: bid }),
    ensures
        !contains_id(apply_all(m, cs).entities, bid),
    decreases cs.len(),
{
    let k0 = choose|k: int|
        0 <= k < cs.len() && #[trigger] cs[k] == (Command::DespawnRecursive { id: bid });
    match cs.first() {
        Command::SpawnBullet { scene } => {
            assert(cs[0] is DespawnRecursive);
            assert(false);
        },
        Command::DespawnRecursive { id } => {
            let m1 = despawn_spec(m, id);
            let n = m.entities.len() as int;
            crate::store::lemma_survivors_origin(m.entities, id, n);
            assert forall|i: int|
                0 <= i < m1.entities.len() implies (#[trigger] m1.entities[i]).parent is None by {
                let x = choose|x: int| 0 <= x < n && #[trigger] m1.entities[i] == m.entities[x];
            }
            assert(forall|k: int|
                0 <= k < cs.drop_first().len() ==> #[trigger] cs.drop_first()[k] == cs[k + 1]);
            if id == bid {
                crate::store::lemma_survivors_no_target(m.entities, bid, n);
                assert(!contains_id(m1.entities, bid));
                lemma_apply_absent(m1, cs.drop_first(), bid);
            } else {
                assert(cs.drop_first()[k0 - 1] == cs[k0]);
                lemma_apply_removes(m1, cs.drop_first(), bid);
            }
            assert(apply_all(m, cs) == apply_all(m1, cs.drop_first()));
        },
    }
}

/// The bullet-lifetime system requests a despawn for every expired bullet.
proof fn lemma_despawn_commands_complete(s: Seq<EntityRecord>, delta: u64, x: int)
    requires
        0 <= x < s.len(),
        s[x].lifetime is Some,
        lifetime_expires(s[x], delta),
    ensures
        exists|k: int|
            0 <= k < despawn_commands(s, delta).len() && #[trigger] despawn_commands(s, delta)[k]
                == (Command::DespawnRecursive { id: s[x].id }),
    decreases s.len(),
{
    let dc = despawn_commands(s, delta);
    let prev = despawn_commands(s.drop_last(), delta);
    if x == s.len() - 1 {
        assert(s.last() == s[x]);
        assert(dc[dc.len() - 1] == (Command::DespawnRecursive { id: s[x].id }));
    } else {
        assert(s.drop_last()[x] == s[x]);
        lemma_despawn_commands_complete(s.drop_last(), delta, x);
        let k = choose|k: int|
            0 <= k < prev.len() && #[trigger] prev[k] == (Command::DespawnRecursive {
                id: s.drop_last()[x].id,
            });
        assert(dc[k] == (Command::DespawnRecursive { id: s[x].id }));
    }
}

/// One frame of a bullet world, seen from one bullet: its lifetime ticks by
/// the frame delta; it survives the frame — same components, ticked timer —
/// exactly when the tick leaves the timer short of its period, and the
/// frame at whose boundary the timer completes removes it.
proof fn lemma_frame_bullet(m: StoreModel, assets: GameAssets, delta: u64, b: int) -> (b2: int)
    requires
        bullet_world(m),
        0 <= b < m.entities.len(),
        m.entities[b].lifetime is Some,
        m.entities[b].lifetime->0.timer.elapsed < m.entities[b].lifetime->0.timer.period,
    ensures
        ({
            let m2 = frame_spec(m, assets, delta);
            let e = m.entities[b];
            let t = e.lifetime->0.timer;
            &&& bullet_world(m2)
            &&& m2.next_id == m.next_id
            &&& (t.elapsed + delta < t.period ==> {
                &&& 0 <= b2 < m2.entities.len()
                &&& m2.entities[b2] == (EntityRecord {
                    lifetime: Some(Lifetime { timer: spec_tick(t, delta) }),
                    ..e
                })
            })
            &&& (t.elapsed + delta >= t.period ==> !contains_id(m2.entities, e.id))
        }),
{
    let s0 = m.entities;
    let n = s0.len() as int;
    let e = s0[b];
    let t = e.lifetime->0.timer;
    let s1 = tick_towers(s0, delta);
    assert(s1 =~= s0) by {
        assert(forall|i: int| 0 <= i < n ==> #[trigger] s1[i] == tower_ticked(s0[i], delta));
        assert forall|i: int| 0 <= i < n implies #[trigger] s1[i] == s0[i] by {
            assert(s0[i].tower is None);
        }
    }
    lemma_fired_count_none(s0, delta);
    let sc = spawn_commands(s0, delta, assets.bullet_scene);
    assert(sc =~= Seq::<Command>::empty());
    let dc = despawn_commands(s0, delta);
    assert(sc + dc =~= dc);
    let s2 = tick_lifetimes(s0, delta);
    let mt = StoreModel { entities: s2, ..m };
    assert forall|i: int| 0 <= i < n implies {
        &&& (#[trigger] s2[i]).tower is None
        &&& s2[i].parent is None
        &&& s2[i].id == s0[i].id
        &&& (s2[i].lifetime is Some) == (s0[i].lifetime is Some)
        &&& (s2[i].lifetime is Some ==> {
            &&& s2[i].lifetime->0.timer.wf()
            &&& s2[i].lifetime->0.timer.mode == TimerMode::OneShot
        })
    } by {
        assert(s2[i] == lifetime_ticked(s0[i], delta));
        if s0[i].lifetime is Some {
            lemma_spec_tick_wf(s0[i].lifetime->0.timer, delta);
        }
    }
    assert(bullet_world(mt));
    lemma_despawn_commands_targets(s0, delta);
    assert forall|k: int| 0 <= k < dc.len() implies (#[trigger] dc[k]) is DespawnRecursive by {
        let x = choose|x: int|
            0 <= x < n && (#[trigger] dc[k]) == (Command::DespawnRecursive { id: s0[x].id })
                && s0[x].lifetime is Some;
    }
    lemma_apply_bullet_world(mt, dc);
    assert(frame_spec(m, assets, delta) == apply_all(mt, dc));
    assert(s2[b] == (EntityRecord { lifetime: Some(Lifetime { timer: spec_tick(t, delta) }), ..e }));
    if t.elapsed + delta < t.period {
        assert(!lifetime_expires(e, delta));
        assert forall|k: int|
            0 <= k < dc.len() implies ((#[trigger] dc[k]) matches Command::DespawnRecursive {
            id } ==> id != mt.entities[b].id) by {
            let x = choose|x: int|
                0 <= x < n && (#[trigger] dc[k]) == (Command::DespawnRecursive { id: s0[x].id })
                    && s0[x].lifetime is Some && lifetime_expires(s0[x], delta);
            if x == b {
                assert(false);
            } else {
                assert(s0[x].id != s0[b].id);
            }
        }
        let b2 = lemma_apply_keeps(mt, dc, b);
        b2
    } else {
        assert(lifetime_expires(e, delta));
        lemma_despawn_commands_complete(s0, delta, b);
        lemma_apply_removes(mt, dc, e.id);
        b
    }
}

/// Running frames over a bullet world, seen from one bullet: it is present
/// after the run — with its lifetime advanced through the whole delta
/// sequence — exactly when the deltas total less than its period, and gone
/// once they reach it.
proof fn lemma_run_bullet(m: StoreModel, assets: GameAssets, deltas: Seq<u64>, b: int) -> (b2: int)
    requires
        bullet_world(m),
        0 <= b < m.entities.len(),
        m.entities[b].lifetime is Some,
        m.entities[b].lifetime->0.timer.elapsed < m.entities[b].lifetime->0.timer.period,
    ensures
        ({
            let m2 = run_frames(m, assets, deltas);
            let e = m.entities[b];
            let t = e.lifetime->0.timer;
            &&& bullet_world(m2)
            &&& (t.elapsed + delta_sum(deltas) < t.period ==> {
                &&& 0 <= b2 < m2.entities.len()
                &&& m2.entities[b2] == (EntityRecord {
                    lifetime: Some(Lifetime { timer: spec_ticks(t, deltas) }),
                    ..e
                })
            })
            &&& (t.elapsed + delta_sum(deltas) >= t.period ==> !contains_id(m2.entities, e.id))
        }),
    decreases deltas.len(),
{
    let e = m.entities[b];
    let t = e.lifetime->0.timer;
    if deltas.len() == 0 {
        assert(spec_ticks(t, deltas) == t);
        assert(m.entities[b] == (EntityRecord {
            lifetime: Some(Lifetime { timer: spec_ticks(t, deltas) }),
            ..e
        }));
        b
    } else {
        let dl = deltas.drop_last();
        let d = deltas.last();
        let bp = lemma_run_bullet(m, assets, dl, b);
        let rm = run_frames(m, assets, dl);
        lemma_delta_sum_nonneg(dl);
        assert(run_frames(m, assets, deltas) == frame_spec(rm, assets, d));
        if t.elapsed + delta_sum(dl) < t.period {
            let u = spec_ticks(t, dl);
            lemma_oneshot_finality(t, dl);
            assert(u.elapsed == t.elapsed + delta_sum(dl));
            assert(u.period == t.period);
            assert(rm.entities[bp] == (EntityRecord {
                lifetime: Some(Lifetime { timer: u }),
                ..e
            }));
            assert(rm.entities[bp].lifetime->0.timer == u);
            let b2 = lemma_frame_bullet(rm, assets, d, bp);
            assert(spec_ticks(t, deltas) == spec_tick(u, d));
            if t.elapsed + delta_sum(deltas) < t.period {
                assert(u.elapsed + d < u.period);
                assert(frame_spec(rm, assets, d).entities[b2] == (EntityRecord {
                    lifetime: Some(Lifetime { timer: spec_tick(u, d) }),
                    ..e
                }));
            } else {
                assert(u.elapsed + d >= u.period);
                assert(rm.entities[bp].id == e.id);
            }
            b2
        } else {
            assert(!contains_id(rm.entities, e.id));
            // ticking changes no identity, so the bullet stays absent
            let s2 = tick_lifetimes(tick_towers(rm.entities, d), d);
            let mt = StoreModel { entities: s2, ..rm };
            assert forall|i: int|
                0 <= i < s2.len() implies (#[trigger] s2[i]).id != e.id by {
                assert(tick_towers(rm.entities, d)[i] == tower_ticked(rm.entities[i], d));
                assert(s2[i] == lifetime_ticked(tower_ticked(rm.entities[i], d), d));
                assert(rm.entities[i].id != e.id);
            }
            assert(!contains_id(mt.entities, e.id));
            let s1 = tick_towers(rm.entities, d);
            assert(s1 =~= rm.entities) by {
                assert forall|i: int| 0 <= i < rm.entities.len() implies #[trigger] s1[i]
                    == rm.entities[i] by {
                    assert(rm.entities[i].tower is None);
                }
            }
            lemma_fired_count_none(rm.entities, d);
            let sc = spawn_commands(rm.entities, d, assets.bullet_scene);
            assert(sc =~= Seq::<Command>::empty());
            let dc = despawn_commands(s1, d);
            assert(sc + dc =~= dc);
            lemma_despawn_commands_targets(s1, d);
            assert forall|k: int|
                0 <= k < dc.len() implies (#[trigger] dc[k]) is DespawnRecursive by {
                let x = choose|x: int|
                    0 <= x < s1.len() && (#[trigger] dc[k]) == (Command::DespawnRecursive {
                        id: s1[x].id,
                    }) && s1[x].lifetime is Some;
            }
            lemma_apply_absent(mt, dc, e.id);
            lemma_apply_bullet_world(mt, dc);
            assert(frame_spec(rm, assets, d) == apply_all(mt, dc));
            assert(t.elapsed + delta_sum(deltas) >= t.period);
            bp
        }
    }
}

/// Bullet bounded lifetime, at the store level: a bullet with a fresh
/// lifetime timer, ticked by frame deltas between `dmin` and `dmax`, is
/// still alive after any run too short for the deltas to reach its period —
/// so it exists for at least ⌈period/dmax⌉ frames — and is gone after any
/// run whose deltas reach the period — so it exists for at most
/// ⌈period/dmin⌉ frames.
pub proof fn lemma_bullet_bounded_lifetime(
    m: StoreModel,
    assets: GameAssets,
    deltas: Seq<u64>,
    b: int,
    dmin: u64,
    dmax: u64,
)
    requires
        bullet_world(m),
        0 <= b < m.entities.len(),
        m.entities[b].lifetime is Some,
        m.entities[b].lifetime->0.timer.elapsed == 0,
        0 < dmin <= dmax,
        forall|i: int| 0 <= i < deltas.len() ==> dmin <= #[trigger] deltas[i] <= dmax,
    ensures
        ({
            let m2 = run_frames(m, assets, deltas);
            let e = m.entities[b];
            let p = e.lifetime->0.timer.period;
            &&& (deltas.len() < (p + dmax - 1) / (dmax as int) ==> contains_id(m2.entities, e.id))
            &&& (deltas.len() >= (p + dmin - 1) / (dmin as int) ==> !contains_id(
                m2.entities,
                e.id,
            ))
        }),
{
    let e = m.entities[b];
    let t = e.lifetime->0.timer;
    let p = t.period as int;
    let k = deltas.len() as int;
    let b2 = lemma_run_bullet(m, assets, deltas, b);
    lemma_delta_sum_bounds(deltas, dmin, dmax);
    let dx = dmax as int;
    let dn = dmin as int;
    if k < (p + dx - 1) / dx {
        // too few frames for the deltas to total one period
        let c1 = (p + dx - 1) / dx;
        vstd::arithmetic::div_mod::lemma_fundamental_div_mod(p + dx - 1, dx);
        vstd::arithmetic::div_mod::lemma_mod_division_less_than_divisor(p + dx - 1, dx);
        assert(c1 * dx <= p + dx - 1);
        vstd::arithmetic::mul::lemma_mul_inequality(k, c1 - 1, dx);
        assert((c1 - 1) * dx == c1 * dx - dx) by (nonlinear_arith);
        assert(k * dx <= p - 1);
        assert(dmax * deltas.len() == k * dx) by {
            vstd::arithmetic::mul::lemma_mul_is_commutative(dx, k);
        }
        assert(delta_sum(deltas) < p);
        assert(contains_id(run_frames(m, assets, deltas).entities, e.id)) by {
            let m2 = run_frames(m, assets, deltas);
            assert(m2.entities[b2].id == e.id);
        }
    }
    if k >= (p + dn - 1) / dn {
        // enough frames for the deltas to total one period
        let c2 = (p + dn - 1) / dn;
        vstd::arithmetic::div_mod::lemma_fundamental_div_mod(p + dn - 1, dn);
        vstd::arithmetic::div_mod::lemma_mod_division_less_than_divisor(p + dn - 1, dn);
        assert(c2 * dn >= p);
        vstd::arithmetic::mul::lemma_mul_inequality(c2, k, dn);
        assert(k * dn >= p);
        assert(dmin * deltas.len() == k * dn) by {
            vstd::arithmetic::mul::lemma_mul_is_commutative(dn, k);
        }
        assert(delta_sum(deltas) >= p);
    }
}

} // verus!
