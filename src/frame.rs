use vstd::prelude::*;
use crate::game::{all_wf, Config, ControlInput, Ratio, Sprite, World};
use crate::lifecycle::{
    bullet_from, fire_step, fires, hit_by_bullet, killed, lemma_unexpired_keeps,
    lemma_unexpired_members, lemma_unexpired_wf, next_counter, remove_expired, spawn_bullet,
    unexpired,
};
use crate::physics::{input_at, integrate, moved, net_force, net_force_on};

verus! {

/// Body `i` of the snapshot after this tick, and the bullet it fires, if
/// any. An immovable body is left as it is.
pub open spec fn step(
    snap: Seq<Sprite>,
    i: int,
    cfg: Config,
    dt: Ratio,
    inputs: Seq<ControlInput>,
) -> (Sprite, Option<Sprite>) {
    let s = snap[i];
    match s.vel {
        None => (s, None),
        Some(_) => {
            let f = net_force(snap, i, cfg, inputs);
            let m = moved(s, f.0, f.1, cfg, dt);
            match s.controller {
                Some(c) => {
                    let fire = input_at(inputs, c.slot as int).fire;
                    let counter = s.bullet_interval_counter as int;
                    let interval = cfg.fire_interval as int;
                    (
                        Sprite {
                            bullet_interval_counter: next_counter(counter, fire, interval) as usize,
                            ..m
                        },
                        if fires(counter, fire, interval) {
                            Some(bullet_from(s, cfg))
                        } else {
                            None
                        },
                    )
                },
                None => (m, None),
            }
        },
    }
}

/// Updates body `i` of the snapshot `snap`, reading every other body from
/// the snapshot; returns the updated body and the bullet it fires.
pub fn step_sprite(
    snap: &Vec<Sprite>,
    i: usize,
    cfg: &Config,
    dt: Ratio,
    inputs: &Vec<ControlInput>,
) -> (r: (Sprite, Option<Sprite>))
    requires
        i < snap.len(),
        all_wf(snap@),
        cfg.wf(),
        dt.wf(),
    ensures
        r == step(snap@, i as int, *cfg, dt, inputs@),
        r.0.wf(),
        r.0.vel is Some <==> snap@[i as int].vel is Some,
        r.1 is Some ==> r.1.unwrap().wf() && r.1.unwrap().vel is Some,
{
    let s: Sprite = snap[i];
    assert(s.wf());
    if s.vel.is_none() {
        return (s, None);
    }
    let f = net_force_on(snap, i, cfg, inputs);
    let mut m: Sprite = s;
    integrate(&mut m, f.0, f.1, cfg, dt);
    match s.controller {
        Some(c) => {
            let fire: bool = if c.slot < inputs.len() {
                inputs[c.slot].fire
            } else {
                false
            };
            let mut counter: usize = s.bullet_interval_counter;
            let shot: bool = fire_step(&mut counter, fire, cfg.fire_interval);
            m.bullet_interval_counter = counter;
            if shot {
                (m, Some(spawn_bullet(&s, cfg)))
            } else {
                (m, None)
            }
        },
        None => (m, None),
    }
}

/// Updated bodies among the first `k` of the snapshot that no bullet hit,
/// in order.
pub open spec fn kept_upto(
    snap: Seq<Sprite>,
    cfg: Config,
    dt: Ratio,
    inputs: Seq<ControlInput>,
    k: nat,
) -> Seq<Sprite>
    decreases k,
{
    if k == 0 {
        Seq::empty()
    } else {
        let prev = kept_upto(snap, cfg, dt, inputs, (k - 1) as nat);
        if killed(snap, k - 1, cfg) {
            prev
        } else {
            prev.push(step(snap, k - 1, cfg, dt, inputs).0)
        }
    }
}

/// Bullets fired by the first `k` bodies of the snapshot, in order.
pub open spec fn spawned_upto(
    snap: Seq<Sprite>,
    cfg: Config,
    dt: Ratio,
    inputs: Seq<ControlInput>,
    k: nat,
) -> Seq<Sprite>
    decreases k,
{
    if k == 0 {
        Seq::empty()
    } else {
        let prev = spawned_upto(snap, cfg, dt, inputs, (k - 1) as nat);
        match step(snap, k - 1, cfg, dt, inputs).1 {
            Some(b) => prev.push(b),
            None => prev,
        }
    }
}

/// The bodies after one tick: expired bullets are dropped, every remaining
/// body is stepped against that snapshot, the bodies hit by a bullet are
/// removed and the new bullets are appended.
pub open spec fn tick_result(
    sprites: Seq<Sprite>,
    cfg: Config,
    dt: Ratio,
    inputs: Seq<ControlInput>,
) -> Seq<Sprite> {
    let snap = unexpired(sprites, cfg.max_width as int);
    kept_upto(snap, cfg, dt, inputs, snap.len()) + spawned_upto(snap, cfg, dt, inputs, snap.len())
}

/// Advances the world by one tick under the inputs held during it;
/// `inputs[c.slot]` steers the body with controller `c`.
pub fn tick(world: &mut World, cfg: &Config, inputs: &Vec<ControlInput>)
    requires
        old(world).wf(),
        cfg.wf(),
    ensures
        final(world).dt == old(world).dt,
        final(world).sprites@ == tick_result(old(world).sprites@, *cfg, old(world).dt, inputs@),
        final(world).wf(),
{
    let dt: Ratio = world.dt;
    let snap: Vec<Sprite> = remove_expired(&world.sprites, cfg.max_width);
    proof {
        lemma_unexpired_wf(world.sprites@, cfg.max_width as int);
    }
    let mut kept: Vec<Sprite> = Vec::new();
    let mut spawned: Vec<Sprite> = Vec::new();
    let mut i: usize = 0;
    while i < snap.len()
        invariant
            i <= snap.len(),
            all_wf(snap@),
            cfg.wf(),
            dt.wf(),
            kept@ == kept_upto(snap@, *cfg, dt, inputs@, i as nat),
            spawned@ == spawned_upto(snap@, *cfg, dt, inputs@, i as nat),
            all_wf(kept@),
            all_wf(spawned@),
        decreases snap.len() - i,
    {
        let r = step_sprite(&snap, i, cfg, dt, inputs);
        let hit: bool = hit_by_bullet(&snap, i, cfg);
        if !hit {
            kept.push(r.0);
        }
        match r.1 {
            Some(b) => spawned.push(b),
            None => {},
        }
        i = i + 1;
    }
    kept.append(&mut spawned);
    world.sprites = kept;
}

proof fn lemma_kept_immovable(
    snap: Seq<Sprite>,
    cfg: Config,
    dt: Ratio,
    inputs: Seq<ControlInput>,
    k: nat,
)
    requires
        k <= snap.len(),
    ensures
        forall|m: int|
            0 <= m < kept_upto(snap, cfg, dt, inputs, k).len() && (#[trigger] kept_upto(
                snap,
                cfg,
                dt,
                inputs,
                k,
            )[m]).vel is None ==> snap.contains(kept_upto(snap, cfg, dt, inputs, k)[m]),
        forall|j: int|
            0 <= j < k && (#[trigger] snap[j]).vel is None ==> kept_upto(
                snap,
                cfg,
                dt,
                inputs,
                k,
            ).contains(snap[j]),
    decreases k,
{
    if k > 0 {
        lemma_kept_immovable(snap, cfg, dt, inputs, (k - 1) as nat);
        let prev = kept_upto(snap, cfg, dt, inputs, (k - 1) as nat);
        let cur = kept_upto(snap, cfg, dt, inputs, k);
        let last = step(snap, k - 1, cfg, dt, inputs).0;
        if !killed(snap, k - 1, cfg) {
            assert(cur == prev.push(last));
            assert forall|m: int| 0 <= m < cur.len() && (#[trigger] cur[m]).vel is None implies snap.contains(
                cur[m],
            ) by {
                if m < prev.len() {
                    assert(cur[m] == prev[m]);
                } else {
                    assert(snap[k - 1] == cur[m]);
                }
            }
            assert forall|j: int| 0 <= j < k && (#[trigger] snap[j]).vel is None implies cur.contains(
                snap[j],
            ) by {
                if j < k - 1 {
                    let m = choose|m: int| 0 <= m < prev.len() && prev[m] == snap[j];
                    assert(cur[m] == snap[j]);
                } else {
                    assert(cur[prev.len() as int] == snap[j]);
                }
            }
        }
    }
}

/// Immovable bodies are never moved or created by a tick: each one before
/// the tick is still there, unchanged, unless it is a bullet that has left
/// the arena, and each one after the tick was there before.
pub proof fn lemma_immovable_bodies_stay(
    sprites: Seq<Sprite>,
    cfg: Config,
    dt: Ratio,
    inputs: Seq<ControlInput>,
)
    ensures
        forall|j: int|
            0 <= j < sprites.len() && (#[trigger] sprites[j]).vel is None && !crate::lifecycle::expired(
                sprites[j],
                cfg.max_width as int,
            ) ==> tick_result(sprites, cfg, dt, inputs).contains(sprites[j]),
        forall|k: int|
            0 <= k < tick_result(sprites, cfg, dt, inputs).len() && (#[trigger] tick_result(
                sprites,
                cfg,
                dt,
                inputs,
            )[k]).vel is None ==> sprites.contains(tick_result(sprites, cfg, dt, inputs)[k]),
{
    let w = cfg.max_width as int;
    let snap = unexpired(sprites, w);
    let kept = kept_upto(snap, cfg, dt, inputs, snap.len());
    let spawned = spawned_upto(snap, cfg, dt, inputs, snap.len());
    let res = tick_result(sprites, cfg, dt, inputs);
    lemma_kept_immovable(snap, cfg, dt, inputs, snap.len());
    lemma_spawned_movable(snap, cfg, dt, inputs, snap.len());
    lemma_unexpired_members(sprites, w);
    assert forall|j: int|
        0 <= j < sprites.len() && (#[trigger] sprites[j]).vel is None && !crate::lifecycle::expired(
            sprites[j],
            w,
        ) implies res.contains(sprites[j]) by {
        lemma_unexpired_keeps(sprites, w, j);
        let a = choose|a: int| 0 <= a < snap.len() && snap[a] == sprites[j];
        let m = choose|m: int| 0 <= m < kept.len() && kept[m] == snap[a];
        assert(res[m] == sprites[j]);
    }
    assert forall|k: int| 0 <= k < res.len() && (#[trigger] res[k]).vel is None implies sprites.contains(
        res[k],
    ) by {
        if k < kept.len() {
            assert(res[k] == kept[k]);
            let a = choose|a: int| 0 <= a < snap.len() && snap[a] == kept[k];
            assert(snap.contains(snap[a]));
        } else {
            assert(res[k] == spawned[k - kept.len()]);
        }
    }
}

proof fn lemma_spawned_movable(
    snap: Seq<Sprite>,
    cfg: Config,
    dt: Ratio,
    inputs: Seq<ControlInput>,
    k: nat,
)
    requires
        k <= snap.len(),
    ensures
        forall|m: int|
            0 <= m < spawned_upto(snap, cfg, dt, inputs, k).len() ==> (#[trigger] spawned_upto(
                snap,
                cfg,
                dt,
                inputs,
                k,
            )[m]).vel is Some,
    decreases k,
{
    if k > 0 {
        lemma_spawned_movable(snap, cfg, dt, inputs, (k - 1) as nat);
    }
}

/// The bodies after one tick per entry of `inputs`, each entry holding the
/// inputs of its tick.
pub open spec fn run(
    sprites: Seq<Sprite>,
    cfg: Config,
    dt: Ratio,
    inputs: Seq<Seq<ControlInput>>,
) -> Seq<Sprite>
    decreases inputs.len(),
{
    if inputs.len() == 0 {
        sprites
    } else {
        tick_result(run(sprites, cfg, dt, inputs.drop_last()), cfg, dt, inputs.last())
    }
}

/// Over any number of ticks an immovable planet or player keeps its place
/// and state, and no immovable body appears that was not there at the start.
pub proof fn lemma_immovable_bodies_stay_over_ticks(
    sprites: Seq<Sprite>,
    cfg: Config,
    dt: Ratio,
    inputs: Seq<Seq<ControlInput>>,
)
    ensures
        forall|j: int|
            0 <= j < sprites.len() && (#[trigger] sprites[j]).vel is None && !(
            sprites[j].sprite_type is Bullet) ==> run(sprites, cfg, dt, inputs).contains(sprites[j]),
        forall|k: int|
            0 <= k < run(sprites, cfg, dt, inputs).len() && (#[trigger] run(
                sprites,
                cfg,
                dt,
                inputs,
            )[k]).vel is None ==> sprites.contains(run(sprites, cfg, dt, inputs)[k]),
    decreases inputs.len(),
{
    if inputs.len() > 0 {
        let prev = run(sprites, cfg, dt, inputs.drop_last());
        let res = run(sprites, cfg, dt, inputs);
        lemma_immovable_bodies_stay_over_ticks(sprites, cfg, dt, inputs.drop_last());
        lemma_immovable_bodies_stay(prev, cfg, dt, inputs.last());
        assert forall|j: int|
            0 <= j < sprites.len() && (#[trigger] sprites[j]).vel is None && !(
            sprites[j].sprite_type is Bullet) implies res.contains(sprites[j]) by {
            let m = choose|m: int| 0 <= m < prev.len() && prev[m] == sprites[j];
            assert(prev[m].vel is None);
        }
        assert forall|k: int| 0 <= k < res.len() && (#[trigger] res[k]).vel is None implies sprites.contains(
            res[k],
        ) by {
            let m = choose|m: int| 0 <= m < prev.len() && prev[m] == res[k];
            assert(prev[m].vel is None);
        }
    }
}

} // verus!
