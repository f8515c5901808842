use vstd::prelude::*;
use crate::vec2::Vec2;
use crate::game::{
    all_wf, within_limit, CircleParameters, Config, Shape, Sprite, SpriteType, COORD_LIMIT,
};
use crate::physics::sat;

verus! {

/// The cooldown counter after one more tick; it stops at `usize::MAX`.
pub open spec fn bumped(c: int) -> int {
    if c < usize::MAX {
        c + 1
    } else {
        c
    }
}

/// A controlled body fires when its fire input is held and its bumped
/// counter has reached the interval.
pub open spec fn fires(counter: int, fire: bool, interval: int) -> bool {
    fire && bumped(counter) >= interval
}

/// The counter after a tick: back to zero on a shot, else bumped.
pub open spec fn next_counter(counter: int, fire: bool, interval: int) -> int {
    if fires(counter, fire, interval) {
        0
    } else {
        bumped(counter)
    }
}

/// Advances a cooldown counter by one tick; returns whether a shot leaves.
pub fn fire_step(counter: &mut usize, fire: bool, interval: usize) -> (shot: bool)
    ensures
        shot == fires(*old(counter) as int, fire, interval as int),
        *final(counter) as int == next_counter(*old(counter) as int, fire, interval as int),
{
    if *counter < usize::MAX {
        *counter = *counter + 1;
    }
    if fire && *counter >= interval {
        *counter = 0;
        true
    } else {
        false
    }
}

/// Shots fired over `n` ticks with fire held, starting from counter `c`.
pub open spec fn shots_held(c: int, n: nat, interval: int) -> int
    decreases n,
{
    if n == 0 {
        0
    } else {
        (if fires(c, true, interval) {
            1int
        } else {
            0int
        }) + shots_held(next_counter(c, true, interval), (n - 1) as nat, interval)
    }
}

/// Holding fire for `n` ticks from a counter `c` below the interval fires
/// once per full interval: `(c + n) / interval` shots, at most one in any
/// window of `interval` ticks.
pub proof fn lemma_shots_held(c: int, n: nat, interval: int)
    requires
        1 <= interval,
        0 <= c < interval,
        c + n < usize::MAX,
    ensures
        shots_held(c, n, interval) == (c + n) / interval,
    decreases n,
{
    if n > 0 {
        let c1 = next_counter(c, true, interval);
        lemma_shots_held(c1, (n - 1) as nat, interval);
        if c + 1 >= interval {
            assert(c + 1 == interval);
            assert((c + n) / interval == 1 + (n - 1) / interval) by (nonlinear_arith)
                requires
                    c + 1 == interval,
                    interval >= 1,
                    n >= 1,
            ;
        } else {
            assert(c1 + (n - 1) == c + n);
        }
    } else {
        assert(c / interval == 0) by (nonlinear_arith)
            requires
                0 <= c < interval,
        ;
    }
}

/// A bullet fired by `s`: a copy of it moved `bullet_offset` ahead on each
/// axis, by the sign of its velocity there, with the bullet's mass and shape
/// and no controller.
pub open spec fn bullet_from(s: Sprite, cfg: Config) -> Sprite {
    let v = s.vel.unwrap();
    let off = cfg.bullet_offset as int;
    let dx = if v.x > 0 {
        off
    } else {
        -off
    };
    let dy = if v.y > 0 {
        off
    } else {
        -off
    };
    Sprite {
        loc: Vec2 {
            x: sat(s.loc.x + dx, COORD_LIMIT as int) as i64,
            y: sat(s.loc.y + dy, COORD_LIMIT as int) as i64,
        },
        mass: cfg.bullet_mass,
        shape: Shape::Circle(CircleParameters { r: cfg.bullet_radius }),
        sprite_type: SpriteType::Bullet,
        controller: None,
        ..s
    }
}

fn offset_coord(p: i64, ahead: bool, off: i64) -> (r: i64)
    requires
        within_limit(p as int),
        0 <= off <= COORD_LIMIT,
    ensures
        r == sat(p + (if ahead { off as int } else { -off }), COORD_LIMIT as int),
{
    let q: i64 = if ahead { p + off } else { p - off };
    if q > COORD_LIMIT {
        COORD_LIMIT
    } else if q < -COORD_LIMIT {
        -COORD_LIMIT
    } else {
        q
    }
}

/// The bullet that `s` fires.
pub fn spawn_bullet(s: &Sprite, cfg: &Config) -> (b: Sprite)
    requires
        s.wf(),
        s.vel.is_some(),
        cfg.wf(),
    ensures
        b == bullet_from(*s, *cfg),
        b.wf(),
{
    let v: Vec2 = s.vel.unwrap();
    let loc = Vec2 {
        x: offset_coord(s.loc.x, v.x > 0, cfg.bullet_offset),
        y: offset_coord(s.loc.y, v.y > 0, cfg.bullet_offset),
    };
    Sprite {
        loc,
        vel: s.vel,
        mass: cfg.bullet_mass,
        shape: Shape::Circle(CircleParameters { r: cfg.bullet_radius }),
        sprite_type: SpriteType::Bullet,
        controller: None,
        bullet_interval_counter: s.bullet_interval_counter,
    }
}

/// `p` lies in the square of side `size` whose corner is `anchor`, edges
/// included.
pub open spec fn in_hit_box(anchor: Vec2, p: Vec2, size: int) -> bool {
    anchor.x <= p.x <= anchor.x + size && anchor.y <= p.y <= anchor.y + size
}

/// Whether point `p` lies in the hit box anchored at `anchor`.
pub fn hits_box(anchor: Vec2, p: Vec2, size: i64) -> (r: bool)
    requires
        within_limit(anchor.x as int),
        within_limit(anchor.y as int),
        0 <= size <= COORD_LIMIT,
    ensures
        r == in_hit_box(anchor, p, size as int),
{
    anchor.x <= p.x && p.x <= anchor.x + size && anchor.y <= p.y && p.y <= anchor.y + size
}

/// Body `i` of the snapshot is a movable player with some other body, a
/// bullet, inside its hit box.
pub open spec fn killed(snap: Seq<Sprite>, i: int, cfg: Config) -> bool {
    &&& snap[i].sprite_type is Player
    &&& snap[i].vel is Some
    &&& exists|j: int|
        0 <= j < snap.len() && j != i && (#[trigger] snap[j]).sprite_type is Bullet
            && in_hit_box(snap[i].loc, snap[j].loc, cfg.hit_size as int)
}

/// Whether body `i` is hit by a bullet this tick.
pub fn hit_by_bullet(snap: &Vec<Sprite>, i: usize, cfg: &Config) -> (r: bool)
    requires
        i < snap.len(),
        all_wf(snap@),
        cfg.wf(),
    ensures
        r == killed(snap@, i as int, *cfg),
{
    let me: Sprite = snap[i];
    assert(me.wf());
    let is_player: bool = match me.sprite_type {
        SpriteType::Player => true,
        _ => false,
    };
    if !is_player || me.vel.is_none() {
        return false;
    }
    let mut j: usize = 0;
    while j < snap.len()
        invariant
            j <= snap.len(),
            i < snap.len(),
            me == snap[i as int],
            me.wf(),
            me.sprite_type is Player,
            me.vel is Some,
            cfg.wf(),
            forall|k: int|
                0 <= k < j ==> !(k != i && (#[trigger] snap@[k]).sprite_type is Bullet
                    && in_hit_box(me.loc, snap@[k].loc, cfg.hit_size as int)),
        decreases snap.len() - j,
    {
        let other: Sprite = snap[j];
        if j != i && matches!(other.sprite_type, SpriteType::Bullet) && hits_box(
            me.loc,
            other.loc,
            cfg.hit_size,
        ) {
            assert(snap@[j as int] == other);
            return true;
        }
        j = j + 1;
    }
    assert(me == snap@[i as int]);
    false
}

/// A bullet outside `[0, w]` on either axis; other bodies never expire.
pub open spec fn expired(s: Sprite, w: int) -> bool {
    s.sprite_type is Bullet && !(0 <= s.loc.x <= w && 0 <= s.loc.y <= w)
}

/// `s` without its expired bullets, in order.
pub open spec fn unexpired(s: Seq<Sprite>, w: int) -> Seq<Sprite>
    decreases s.len(),
{
    if s.len() == 0 {
        s
    } else {
        let rest = unexpired(s.drop_last(), w);
        if expired(s.last(), w) {
            rest
        } else {
            rest.push(s.last())
        }
    }
}

/// Drops every bullet that has left the arena `[0, w]²`.
pub fn remove_expired(sprites: &Vec<Sprite>, w: i64) -> (r: Vec<Sprite>)
    ensures
        r@ == unexpired(sprites@, w as int),
{
    let mut out: Vec<Sprite> = Vec::new();
    let mut i: usize = 0;
    while i < sprites.len()
        invariant
            i <= sprites.len(),
            out@ == unexpired(sprites@.take(i as int), w as int),
        decreases sprites.len() - i,
    {
        let s: Sprite = sprites[i];
        assert(sprites@.take(i as int + 1).drop_last() =~= sprites@.take(i as int));
        let gone: bool = matches!(s.sprite_type, SpriteType::Bullet) && !(0 <= s.loc.x && s.loc.x
            <= w && 0 <= s.loc.y && s.loc.y <= w);
        if !gone {
            out.push(s);
        }
        i = i + 1;
    }
    assert(sprites@.take(sprites.len() as int) =~= sprites@);
    out
}

/// Every body kept by the filter is one of the input's and has not expired.
pub proof fn lemma_unexpired_members(s: Seq<Sprite>, w: int)
    ensures
        forall|k: int|
            0 <= k < unexpired(s, w).len() ==> s.contains(#[trigger] unexpired(s, w)[k]) && !expired(
                unexpired(s, w)[k],
                w,
            ),
    decreases s.len(),
{
    if s.len() > 0 {
        lemma_unexpired_members(s.drop_last(), w);
        let rest = unexpired(s.drop_last(), w);
        assert forall|k: int| 0 <= k < rest.len() implies s.contains(#[trigger] rest[k]) by {
            let m = choose|m: int| 0 <= m < s.drop_last().len() && s.drop_last()[m] == rest[k];
            assert(s[m] == rest[k]);
        }
        assert(s[s.len() - 1] == s.last());
    }
}

/// A body that has not expired is kept by the filter.
pub proof fn lemma_unexpired_keeps(s: Seq<Sprite>, w: int, j: int)
    requires
        0 <= j < s.len(),
        !expired(s[j], w),
    ensures
        unexpired(s, w).contains(s[j]),
    decreases s.len(),
{
    let rest = unexpired(s.drop_last(), w);
    if j == s.len() - 1 {
        assert(rest.push(s.last())[rest.len() as int] == s[j]);
    } else {
        lemma_unexpired_keeps(s.drop_last(), w, j);
        let m = choose|m: int| 0 <= m < rest.len() && rest[m] == s[j];
        if !expired(s.last(), w) {
            assert(rest.push(s.last())[m] == s[j]);
        }
    }
}

/// A sequence with nothing expired passes the filter unchanged.
pub proof fn lemma_unexpired_none_expired(s: Seq<Sprite>, w: int)
    requires
        forall|k: int| 0 <= k < s.len() ==> !expired(#[trigger] s[k], w),
    ensures
        unexpired(s, w) == s,
    decreases s.len(),
{
    if s.len() > 0 {
        lemma_unexpired_none_expired(s.drop_last(), w);
        assert(!expired(s[s.len() - 1], w));
        assert(s.drop_last().push(s.last()) =~= s);
    }
}

/// Removing expired bullets twice gives what removing them once gives.
pub proof fn lemma_remove_expired_idempotent(s: Seq<Sprite>, w: int)
    ensures
        unexpired(unexpired(s, w), w) == unexpired(s, w),
{
    lemma_unexpired_members(s, w);
    lemma_unexpired_none_expired(unexpired(s, w), w);
}

/// The filter keeps well-formed bodies well formed.
pub proof fn lemma_unexpired_wf(s: Seq<Sprite>, w: int)
    requires
        all_wf(s),
    ensures
        all_wf(unexpired(s, w)),
{
    lemma_unexpired_members(s, w);
    assert forall|k: int| 0 <= k < unexpired(s, w).len() implies #[trigger] unexpired(s, w)[k].wf() by {
        let m = choose|m: int| 0 <= m < s.len() && s[m] == unexpired(s, w)[k];
        assert(s[m].wf());
    }
}

} // verus!
