use vstd::prelude::*;
use crate::vec2::{Vec2, norm2_of};
use crate::game::{
    all_wf, within_limit, Config, ControlInput, Ratio, Sprite, COORD_LIMIT, KEY_FORCE_LIMIT,
    MASS_LIMIT, RATIO_LIMIT,
};

verus! {

/// A force component saturates at this magnitude while forces are summed.
pub const FORCE_LIMIT: i128 = 1267650600228229401496703205376;

/// `r` is the integer square root of `n`.
pub open spec fn is_root(n: int, r: int) -> bool {
    0 <= r && r * r <= n && n < (r + 1) * (r + 1)
}

/// The integer square root of `n`.
pub open spec fn root_floor(n: int) -> int {
    choose|r: int| is_root(n, r)
}

/// The integer square root is unique.
pub proof fn lemma_root_unique(n: int, a: int, b: int)
    requires
        is_root(n, a),
        is_root(n, b),
    ensures
        a == b,
{
    if a < b {
        assert((a + 1) * (a + 1) <= b * b) by (nonlinear_arith)
            requires
                0 <= a,
                a + 1 <= b,
        ;
    } else if b < a {
        assert((b + 1) * (b + 1) <= a * a) by (nonlinear_arith)
            requires
                0 <= b,
                b + 1 <= a,
        ;
    }
}

/// The root of `r * r` is `r`.
pub proof fn lemma_root_of_square(r: int)
    requires
        0 <= r,
    ensures
        root_floor(r * r) == r,
{
    assert(r * r < (r + 1) * (r + 1)) by (nonlinear_arith)
        requires
            0 <= r,
    ;
    assert(is_root(r * r, r));
    lemma_root_unique(r * r, root_floor(r * r), r);
}

/// Integer square root, rounded down.
pub fn isqrt(n: u128) -> (r: u128)
    requires
        n <= 0x4_0000_0000_0000_0000,
    ensures
        is_root(n as int, r as int),
        r as int == root_floor(n as int),
        r <= 0x2_0000_0000,
{
    let mut lo: u128 = 0;
    let mut hi: u128 = 0x4_0000_0000;
    assert(hi * hi == 0x10_0000_0000_0000_0000) by (nonlinear_arith)
        requires
            hi == 0x4_0000_0000,
    ;
    while hi - lo > 1
        invariant
            lo < hi <= 0x4_0000_0000,
            lo * lo <= n,
            n < hi * hi,
        decreases hi - lo,
    {
        let mid: u128 = lo + (hi - lo) / 2;
        assert(mid * mid <= 0x10_0000_0000_0000_0000) by (nonlinear_arith)
            requires
                mid <= 0x4_0000_0000,
        ;
        if mid * mid <= n {
            lo = mid;
        } else {
            hi = mid;
        }
    }
    proof {
        assert(is_root(n as int, lo as int));
        assert(is_root(n as int, root_floor(n as int)));
        lemma_root_unique(n as int, root_floor(n as int), lo as int);
        if lo > 0x2_0000_0000 {
            assert(lo * lo > 0x4_0000_0000_0000_0000) by (nonlinear_arith)
                requires
                    lo > 0x2_0000_0000,
            ;
        }
    }
    lo
}

/// `a / b` rounded toward zero, for `b > 0`.
pub open spec fn quot(a: int, b: int) -> int {
    if a < 0 {
        -((-a) / b)
    } else {
        a / b
    }
}

/// `v` limited to `[-lim, lim]`.
pub open spec fn sat(v: int, lim: int) -> int {
    if v > lim {
        lim
    } else if v < -lim {
        -lim
    } else {
        v
    }
}

/// Numerator of the pull between two bodies: `m1 * m2 * G`.
pub open spec fn pull(me: Sprite, other: Sprite, cfg: Config) -> int {
    me.mass * other.mass * cfg.gravity.num
}

/// Denominator of the pull at separation `(dx, dy)`: the softened cubed
/// distance, times the denominator of `G`.
pub open spec fn spread(dx: int, dy: int, cfg: Config) -> int {
    let n2 = norm2_of(dx, dy);
    cfg.gravity.den * (n2 * root_floor(n2) + cfg.softening)
}

/// Force that `other` exerts on `me`: the separation `other - me` scaled by
/// `m1 * m2 * G / (|d|³ + eps)`, each component rounded toward zero.
pub open spec fn gravity(me: Sprite, other: Sprite, cfg: Config) -> (int, int) {
    let dx = other.loc.x - me.loc.x;
    let dy = other.loc.y - me.loc.y;
    let s = pull(me, other, cfg);
    let den = spread(dx, dy, cfg);
    (quot(dx * s, den), quot(dy * s, den))
}

/// `|d| * s / den` with the sign of `d`, rounded toward zero.
fn scaled(d: i64, s: u128, den: u128) -> (r: i128)
    requires
        -0x1_0000_0000 <= d <= 0x1_0000_0000,
        s <= 0x10_0000_0000_0000_0000,
        den >= 1,
    ensures
        r == quot(d * s, den as int),
        -FORCE_LIMIT <= r <= FORCE_LIMIT,
{
    let ad: u128 = if d < 0 { (-(d as i128)) as u128 } else { d as u128 };
    assert(ad * s <= 0x10_0000_0000_0000_0000_0000_0000) by (nonlinear_arith)
        requires
            ad <= 0x1_0000_0000,
            s <= 0x10_0000_0000_0000_0000,
    ;
    let m: u128 = ad * s / den;
    assert(m <= ad * s) by (nonlinear_arith)
        requires
            den >= 1,
            m == (ad * s) as int / (den as int),
    ;
    if d < 0 {
        assert(d * s == -(ad * s)) by (nonlinear_arith)
            requires
                ad == -d,
        ;
        -(m as i128)
    } else {
        m as i128
    }
}

/// Gravitational force of `other` on `me`.
pub fn gravity_on(me: &Sprite, other: &Sprite, cfg: &Config) -> (r: (i128, i128))
    requires
        me.wf(),
        other.wf(),
        cfg.wf(),
    ensures
        r.0 == gravity(*me, *other, *cfg).0,
        r.1 == gravity(*me, *other, *cfg).1,
        -FORCE_LIMIT <= r.0 <= FORCE_LIMIT,
        -FORCE_LIMIT <= r.1 <= FORCE_LIMIT,
{
    let d: Vec2 = other.loc.sub(me.loc);
    let n2: u128 = d.norm2();
    assert(n2 <= 0x2_0000_0000_0000_0000) by (nonlinear_arith)
        requires
            n2 == d.x * d.x + d.y * d.y,
            -0x1_0000_0000 <= d.x <= 0x1_0000_0000,
            -0x1_0000_0000 <= d.y <= 0x1_0000_0000,
    ;
    let root: u128 = isqrt(n2);
    assert(n2 * root <= 0x4_0000_0000_0000_0000_0000_0000) by (nonlinear_arith)
        requires
            n2 <= 0x2_0000_0000_0000_0000,
            root <= 0x2_0000_0000,
    ;
    let dist3: u128 = n2 * root + cfg.softening as u128;
    assert(cfg.gravity.den * dist3 <= 0x80_0000_0000_0000_0000_0000_0000_0000) by (nonlinear_arith)
        requires
            0 <= cfg.gravity.den <= RATIO_LIMIT,
            0 <= dist3 <= 0x4_0000_0000_0000_0000_0010_0000,
    ;
    let den: u128 = cfg.gravity.den as u128 * dist3;
    assert(den >= 1) by (nonlinear_arith)
        requires
            cfg.gravity.den >= 1,
            dist3 >= 1,
            den == cfg.gravity.den * dist3,
    ;
    assert(me.mass * other.mass <= 0x1_0000_0000_0000) by (nonlinear_arith)
        requires
            me.mass <= MASS_LIMIT,
            other.mass <= MASS_LIMIT,
    ;
    let mm: u128 = me.mass as u128 * other.mass as u128;
    assert(mm * cfg.gravity.num <= 0x10_0000_0000_0000_0000) by (nonlinear_arith)
        requires
            mm <= 0x1_0000_0000_0000,
            cfg.gravity.num <= RATIO_LIMIT,
    ;
    let s: u128 = mm * cfg.gravity.num as u128;
    (scaled(d.x, s, den), scaled(d.y, s, den))
}

/// The input that steers controller slot `slot`; a slot without an entry
/// holds nothing.
pub open spec fn input_at(inputs: Seq<ControlInput>, slot: int) -> ControlInput {
    if 0 <= slot < inputs.len() {
        inputs[slot]
    } else {
        ControlInput { up: false, down: false, left: false, right: false, fire: false }
    }
}

/// Thrust on one axis: the negative key wins, and none is given once the
/// velocity on that axis has reached `max_vel`.
pub open spec fn thrust_axis(v: int, neg: bool, pos: bool, kf: int, max_vel: int) -> int {
    if v < max_vel {
        if neg {
            -kf
        } else if pos {
            kf
        } else {
            0
        }
    } else {
        0
    }
}

/// The force a body starts a tick with: its controller's thrust, if any.
pub open spec fn thrust(s: Sprite, cfg: Config, inputs: Seq<ControlInput>) -> (int, int) {
    match (s.controller, s.vel) {
        (Some(c), Some(v)) => {
            let inp = input_at(inputs, c.slot as int);
            (
                thrust_axis(v.x as int, inp.left, inp.right, c.key_force as int, cfg.max_vel as int),
                thrust_axis(v.y as int, inp.up, inp.down, c.key_force as int, cfg.max_vel as int),
            )
        },
        _ => (0, 0),
    }
}

/// Thrust plus the gravity of the first `k` bodies of `snap` other than
/// body `i`, summed in order with saturation.
pub open spec fn force_upto(
    snap: Seq<Sprite>,
    i: int,
    cfg: Config,
    inputs: Seq<ControlInput>,
    k: nat,
) -> (int, int)
    decreases k,
{
    if k == 0 {
        thrust(snap[i], cfg, inputs)
    } else {
        let prev = force_upto(snap, i, cfg, inputs, (k - 1) as nat);
        if k - 1 == i {
            prev
        } else {
            let g = gravity(snap[i], snap[k - 1], cfg);
            (sat(prev.0 + g.0, FORCE_LIMIT as int), sat(prev.1 + g.1, FORCE_LIMIT as int))
        }
    }
}

/// Drag opposing velocity `v`.
pub open spec fn drag(v: int, friction: Ratio) -> int {
    quot(friction.num * v, friction.den as int)
}

/// Net force on body `i` of the snapshot: thrust, gravity of every other
/// body, then drag.
pub open spec fn net_force(snap: Seq<Sprite>, i: int, cfg: Config, inputs: Seq<ControlInput>) -> (
    int,
    int,
) {
    let f = force_upto(snap, i, cfg, inputs, snap.len());
    let v = snap[i].vel.unwrap();
    (
        sat(f.0 - drag(v.x as int, cfg.friction), FORCE_LIMIT as int),
        sat(f.1 - drag(v.y as int, cfg.friction), FORCE_LIMIT as int),
    )
}

fn thrust_on_axis(v: i64, neg: bool, pos: bool, kf: u64, max_vel: i64) -> (r: i128)
    requires
        kf <= KEY_FORCE_LIMIT,
    ensures
        r == thrust_axis(v as int, neg, pos, kf as int, max_vel as int),
{
    if v < max_vel {
        if neg {
            -(kf as i128)
        } else if pos {
            kf as i128
        } else {
            0
        }
    } else {
        0
    }
}

/// Thrust of body `s` under this tick's inputs.
pub fn thrust_of(s: &Sprite, cfg: &Config, inputs: &Vec<ControlInput>) -> (r: (i128, i128))
    requires
        s.wf(),
    ensures
        r.0 == thrust(*s, *cfg, inputs@).0,
        r.1 == thrust(*s, *cfg, inputs@).1,
{
    match (s.controller, s.vel) {
        (Some(c), Some(v)) => {
            let inp = if c.slot < inputs.len() {
                inputs[c.slot]
            } else {
                ControlInput { up: false, down: false, left: false, right: false, fire: false }
            };
            (
                thrust_on_axis(v.x, inp.left, inp.right, c.key_force, cfg.max_vel),
                thrust_on_axis(v.y, inp.up, inp.down, c.key_force, cfg.max_vel),
            )
        },
        _ => (0, 0),
    }
}

fn sat_force(v: i128) -> (r: i128)
    requires
        -4 * FORCE_LIMIT <= v <= 4 * FORCE_LIMIT,
    ensures
        r == sat(v as int, FORCE_LIMIT as int),
{
    if v > FORCE_LIMIT {
        FORCE_LIMIT
    } else if v < -FORCE_LIMIT {
        -FORCE_LIMIT
    } else {
        v
    }
}

/// `a / b` rounded toward zero.
pub fn div_toward_zero(a: i128, b: i128) -> (r: i128)
    requires
        b >= 1,
        -0x4000_0000_0000_0000_0000_0000_0000_0000 <= a <= 0x4000_0000_0000_0000_0000_0000_0000_0000,
    ensures
        r == quot(a as int, b as int),
        a >= 0 ==> 0 <= r <= a,
        a < 0 ==> a <= r <= 0,
{
    if a < 0 {
        let q: i128 = (-a) / b;
        assert(q <= -a) by (nonlinear_arith)
            requires
                b >= 1,
                -a >= 0,
                q == (-a) as int / (b as int),
        ;
        -q
    } else {
        let q: i128 = a / b;
        assert(q <= a) by (nonlinear_arith)
            requires
                b >= 1,
                a >= 0,
                q == a as int / (b as int),
        ;
        q
    }
}

fn drag_of(v: i64, friction: Ratio) -> (r: i128)
    requires
        within_limit(v as int),
        friction.wf(),
    ensures
        r == drag(v as int, friction),
        -FORCE_LIMIT <= r <= FORCE_LIMIT,
{
    assert(-0x10_0000_0000_0000 <= friction.num * v <= 0x10_0000_0000_0000) by (nonlinear_arith)
        requires
            0 <= friction.num <= RATIO_LIMIT,
            within_limit(v as int),
    ;
    div_toward_zero(friction.num as i128 * v as i128, friction.den as i128)
}

/// Net force on body `i`, read from the pre-tick snapshot `snap`.
pub fn net_force_on(snap: &Vec<Sprite>, i: usize, cfg: &Config, inputs: &Vec<ControlInput>) -> (r: (
    i128,
    i128,
))
    requires
        i < snap.len(),
        all_wf(snap@),
        cfg.wf(),
        snap[i as int].vel.is_some(),
    ensures
        r.0 == net_force(snap@, i as int, *cfg, inputs@).0,
        r.1 == net_force(snap@, i as int, *cfg, inputs@).1,
        -FORCE_LIMIT <= r.0 <= FORCE_LIMIT,
        -FORCE_LIMIT <= r.1 <= FORCE_LIMIT,
{
    let me: Sprite = snap[i];
    assert(me.wf());
    let t = thrust_of(&me, cfg, inputs);
    let mut fx: i128 = t.0;
    let mut fy: i128 = t.1;
    let mut j: usize = 0;
    while j < snap.len()
        invariant
            j <= snap.len(),
            i < snap.len(),
            me == snap[i as int],
            me.wf(),
            all_wf(snap@),
            cfg.wf(),
            fx == force_upto(snap@, i as int, *cfg, inputs@, j as nat).0,
            fy == force_upto(snap@, i as int, *cfg, inputs@, j as nat).1,
            -FORCE_LIMIT <= fx <= FORCE_LIMIT,
            -FORCE_LIMIT <= fy <= FORCE_LIMIT,
        decreases snap.len() - j,
    {
        if j != i {
            let other: Sprite = snap[j];
            assert(other.wf());
            let g = gravity_on(&me, &other, cfg);
            fx = sat_force(fx + g.0);
            fy = sat_force(fy + g.1);
        }
        j = j + 1;
    }
    let v: Vec2 = me.vel.unwrap();
    let rx: i128 = sat_force(fx - drag_of(v.x, cfg.friction));
    let ry: i128 = sat_force(fy - drag_of(v.y, cfg.friction));
    (rx, ry)
}

/// Velocity gained over one step of `dt` under force `f` on mass `mass`.
pub open spec fn dv(f: int, mass: int, dt: Ratio) -> int {
    quot(f * dt.num, mass * dt.den)
}

/// The arena check after a move: the first boundary reached, in the order
/// left, right, top, bottom, is clamped and the velocity across it zeroed.
/// Only that one boundary is corrected.
pub open spec fn arena_clamp(p: Vec2, v: Vec2, w: i64) -> (Vec2, Vec2) {
    if p.x <= 0 {
        (Vec2 { x: 0, y: p.y }, Vec2 { x: 0, y: v.y })
    } else if p.x >= w {
        (Vec2 { x: w, y: p.y }, Vec2 { x: 0, y: v.y })
    } else if p.y <= 0 {
        (Vec2 { x: p.x, y: 0 }, Vec2 { x: v.x, y: 0 })
    } else if p.y >= w {
        (Vec2 { x: p.x, y: w }, Vec2 { x: v.x, y: 0 })
    } else {
        (p, v)
    }
}

pub open spec fn in_arena(p: Vec2, w: int) -> bool {
    0 <= p.x <= w && 0 <= p.y <= w
}

/// Position and velocity of body `s` after one step under force
/// `(fx, fy)`, before the arena check: velocity gains `f / m * dt`, position
/// gains the new velocity (not scaled by `dt`), both saturating at
/// `COORD_LIMIT`.
pub open spec fn drifted(s: Sprite, fx: int, fy: int, dt: Ratio) -> (Vec2, Vec2) {
    let v = s.vel.unwrap();
    let vx = sat(v.x + dv(fx, s.mass as int, dt), COORD_LIMIT as int);
    let vy = sat(v.y + dv(fy, s.mass as int, dt), COORD_LIMIT as int);
    let px = sat(s.loc.x + vx, COORD_LIMIT as int);
    let py = sat(s.loc.y + vy, COORD_LIMIT as int);
    (Vec2 { x: px as i64, y: py as i64 }, Vec2 { x: vx as i64, y: vy as i64 })
}

/// Body `s` after one step under force `(fx, fy)`: the drift, then the
/// arena check.
pub open spec fn moved(s: Sprite, fx: int, fy: int, cfg: Config, dt: Ratio) -> Sprite {
    let d = drifted(s, fx, fy, dt);
    let c = arena_clamp(d.0, d.1, cfg.max_width);
    Sprite { loc: c.0, vel: Some(c.1), ..s }
}

/// Applies the arena check to a moved body.
pub fn clamp_to_arena(loc: &mut Vec2, vel: &mut Vec2, w: i64)
    ensures
        (*final(loc), *final(vel)) == arena_clamp(*old(loc), *old(vel), w),
{
    if loc.x <= 0 {
        loc.x = 0;
        vel.x = 0;
    } else if loc.x >= w {
        loc.x = w;
        vel.x = 0;
    } else if loc.y <= 0 {
        loc.y = 0;
        vel.y = 0;
    } else if loc.y >= w {
        loc.y = w;
        vel.y = 0;
    }
}

/// A moved body ends inside the arena whenever at most its crossing of a
/// single boundary needs correcting: its y is inside, or its x is strictly
/// inside.
pub proof fn lemma_clamp_confines(p: Vec2, v: Vec2, w: i64)
    requires
        w > 0,
        (0 < p.x < w) || (0 <= p.y <= w),
    ensures
        in_arena(arena_clamp(p, v, w).0, w as int),
{
}

/// A moved body ends inside the arena whenever its drift crossed at most
/// one boundary needing correction: its y stayed inside, or its x stayed
/// strictly inside.
pub proof fn lemma_moved_in_arena(s: Sprite, fx: int, fy: int, cfg: Config, dt: Ratio)
    requires
        cfg.wf(),
        ({
            let p = drifted(s, fx, fy, dt).0;
            (0 < p.x < cfg.max_width) || (0 <= p.y <= cfg.max_width)
        }),
    ensures
        in_arena(moved(s, fx, fy, cfg, dt).loc, cfg.max_width as int),
{
    let d = drifted(s, fx, fy, dt);
    lemma_clamp_confines(d.0, d.1, cfg.max_width);
}

fn sat_coord(v: i128) -> (r: i64)
    requires
        -0x4000_0000_0000_0000_0000_0000_0000_0000 <= v <= 0x4000_0000_0000_0000_0000_0000_0000_0000,
    ensures
        r == sat(v as int, COORD_LIMIT as int),
{
    if v > COORD_LIMIT as i128 {
        COORD_LIMIT
    } else if v < -(COORD_LIMIT as i128) {
        -COORD_LIMIT
    } else {
        v as i64
    }
}

/// One integration step of a movable body under force `(fx, fy)`.
pub fn integrate(s: &mut Sprite, fx: i128, fy: i128, cfg: &Config, dt: Ratio)
    requires
        old(s).wf(),
        old(s).vel.is_some(),
        -FORCE_LIMIT <= fx <= FORCE_LIMIT,
        -FORCE_LIMIT <= fy <= FORCE_LIMIT,
        cfg.wf(),
        dt.wf(),
    ensures
        *final(s) == moved(*old(s), fx as int, fy as int, *cfg, dt),
        final(s).wf(),
{
    let v: Vec2 = s.vel.unwrap();
    assert(-0x100_0000_0000_0000_0000_0000_0000_0000 <= fx * dt.num <= 0x100_0000_0000_0000_0000_0000_0000_0000)
        by (nonlinear_arith)
        requires
            -FORCE_LIMIT <= fx <= FORCE_LIMIT,
            0 <= dt.num <= RATIO_LIMIT,
    ;
    assert(-0x100_0000_0000_0000_0000_0000_0000_0000 <= fy * dt.num <= 0x100_0000_0000_0000_0000_0000_0000_0000)
        by (nonlinear_arith)
        requires
            -FORCE_LIMIT <= fy <= FORCE_LIMIT,
            0 <= dt.num <= RATIO_LIMIT,
    ;
    assert(1 <= s.mass * dt.den <= 0x1000_0000_0000) by (nonlinear_arith)
        requires
            1 <= s.mass <= MASS_LIMIT,
            1 <= dt.den <= RATIO_LIMIT,
    ;
    let md: i128 = s.mass as i128 * dt.den as i128;
    let dvx: i128 = div_toward_zero(fx * dt.num as i128, md);
    let dvy: i128 = div_toward_zero(fy * dt.num as i128, md);
    let vx: i64 = sat_coord(v.x as i128 + dvx);
    let vy: i64 = sat_coord(v.y as i128 + dvy);
    let px: i64 = sat_coord(s.loc.x as i128 + vx as i128);
    let py: i64 = sat_coord(s.loc.y as i128 + vy as i128);
    let mut loc = Vec2 { x: px, y: py };
    let mut vel = Vec2 { x: vx, y: vy };
    clamp_to_arena(&mut loc, &mut vel, cfg.max_width);
    s.loc = loc;
    s.vel = Some(vel);
}

/// Every natural number has an integer square root.
pub proof fn lemma_root_exists(n: nat)
    ensures
        is_root(n as int, root_floor(n as int)),
    decreases n,
{
    if n == 0 {
        assert(is_root(0, 0));
    } else {
        lemma_root_exists((n - 1) as nat);
        let r = root_floor(n - 1);
        if (r + 1) * (r + 1) <= n {
            assert(n < (r + 2) * (r + 2)) by (nonlinear_arith)
                requires
                    0 <= r,
                    n - 1 < (r + 1) * (r + 1),
            ;
            assert(is_root(n as int, r + 1));
        } else {
            assert(is_root(n as int, r));
        }
    }
}

/// The divisor of the gravity formula is positive.
pub proof fn lemma_spread_positive(dx: int, dy: int, cfg: Config)
    requires
        cfg.wf(),
    ensures
        spread(dx, dy, cfg) >= 1,
{
    let n2 = norm2_of(dx, dy);
    assert(n2 >= 0) by (nonlinear_arith)
        requires
            n2 == dx * dx + dy * dy,
    ;
    lemma_root_exists(n2 as nat);
    let r = root_floor(n2);
    assert(n2 * r >= 0) by (nonlinear_arith)
        requires
            n2 >= 0,
            r >= 0,
    ;
    assert(cfg.gravity.den * (n2 * r + cfg.softening) >= 1) by (nonlinear_arith)
        requires
            cfg.gravity.den >= 1,
            n2 * r + cfg.softening >= 1,
    ;
}

/// Gravity attracts: on each axis the force that `other` exerts on `me`
/// points from `me` toward `other`, and vanishes where they are level.
pub proof fn lemma_gravity_attracts(me: Sprite, other: Sprite, cfg: Config)
    requires
        cfg.wf(),
    ensures
        other.loc.x > me.loc.x ==> gravity(me, other, cfg).0 >= 0,
        other.loc.x < me.loc.x ==> gravity(me, other, cfg).0 <= 0,
        other.loc.x == me.loc.x ==> gravity(me, other, cfg).0 == 0,
        other.loc.y > me.loc.y ==> gravity(me, other, cfg).1 >= 0,
        other.loc.y < me.loc.y ==> gravity(me, other, cfg).1 <= 0,
        other.loc.y == me.loc.y ==> gravity(me, other, cfg).1 == 0,
{
    let dx = other.loc.x - me.loc.x;
    let dy = other.loc.y - me.loc.y;
    let s = pull(me, other, cfg);
    let den = spread(dx, dy, cfg);
    lemma_spread_positive(dx, dy, cfg);
    assert(s >= 0) by (nonlinear_arith)
        requires
            s == me.mass * other.mass * cfg.gravity.num,
            me.mass >= 0,
            other.mass >= 0,
            cfg.gravity.num >= 0,
    ;
    lemma_quot_sign(dx, s, den);
    lemma_quot_sign(dy, s, den);
}

proof fn lemma_quot_sign(d: int, s: int, den: int)
    requires
        s >= 0,
        den >= 1,
    ensures
        d > 0 ==> quot(d * s, den) >= 0,
        d < 0 ==> quot(d * s, den) <= 0,
        d == 0 ==> quot(d * s, den) == 0,
{
    if d > 0 {
        assert(d * s >= 0) by (nonlinear_arith)
            requires
                d > 0,
                s >= 0,
        ;
    } else if d < 0 {
        assert(d * s <= 0) by (nonlinear_arith)
            requires
                d < 0,
                s >= 0,
        ;
    }
}

/// `a / b <= c / d` whenever `a / b <= c / d` holds of the exact fractions.
proof fn lemma_floor_monotone(a: int, b: int, c: int, d: int)
    requires
        a >= 0,
        c >= 0,
        b >= 1,
        d >= 1,
        a * d <= c * b,
    ensures
        a / b <= c / d,
{
    let q = a / b;
    assert(q * b <= a) by (nonlinear_arith)
        requires
            b >= 1,
            a >= 0,
            q == a / b,
    ;
    assert(q >= 0) by (nonlinear_arith)
        requires
            b >= 1,
            a >= 0,
            q == a / b,
    ;
    assert(q * d * b <= c * b) by (nonlinear_arith)
        requires
            q * b <= a,
            a * d <= c * b,
            d >= 1,
            q >= 0,
    ;
    assert(q * d <= c) by (nonlinear_arith)
        requires
            q * d * b <= c * b,
            b >= 1,
    ;
    assert(q <= c / d) by (nonlinear_arith)
        requires
            q * d <= c,
            d >= 1,
            q >= 0,
    ;
}

/// Along one axis the pull weakens with distance. With `me` level with two
/// bodies of equal mass at distances `0 < r1 < r2` on the same side, and the
/// softening below `r1 * r2 * (r1 + r2)` (nearer than that the softened pull
/// still grows with distance), the exact pull `m1 * m2 * G * r / (r³ + eps)`
/// is strictly smaller at `r2`, and the computed pull is no larger.
pub proof fn lemma_gravity_weakens(me: Sprite, near: Sprite, far: Sprite, cfg: Config)
    requires
        cfg.wf(),
        near.mass == far.mass,
        near.loc.y == me.loc.y,
        far.loc.y == me.loc.y,
        me.loc.x < near.loc.x < far.loc.x,
        cfg.softening < (near.loc.x - me.loc.x) * (far.loc.x - me.loc.x) * ((near.loc.x - me.loc.x)
            + (far.loc.x - me.loc.x)),
    ensures
        pull(me, far, cfg) > 0 ==> pull(me, far, cfg) * (far.loc.x - me.loc.x) * spread(
            near.loc.x - me.loc.x,
            0,
            cfg,
        ) < pull(me, near, cfg) * (near.loc.x - me.loc.x) * spread(far.loc.x - me.loc.x, 0, cfg),
        0 <= gravity(me, far, cfg).0 <= gravity(me, near, cfg).0,
{
    let r1 = near.loc.x - me.loc.x;
    let r2 = far.loc.x - me.loc.x;
    let s = pull(me, far, cfg);
    let e = cfg.softening as int;
    let gd = cfg.gravity.den as int;
    assert(pull(me, near, cfg) == s);
    assert(s >= 0) by (nonlinear_arith)
        requires
            s == me.mass * far.mass * cfg.gravity.num,
            me.mass >= 0,
            far.mass >= 0,
            cfg.gravity.num >= 0,
    ;
    assert(norm2_of(r1, 0) == r1 * r1);
    assert(norm2_of(r2, 0) == r2 * r2);
    lemma_root_of_square(r1);
    lemma_root_of_square(r2);
    let d1 = spread(r1, 0, cfg);
    let d2 = spread(r2, 0, cfg);
    assert(d1 == gd * (r1 * r1 * r1 + e));
    assert(d2 == gd * (r2 * r2 * r2 + e));
    assert(r2 * (r1 * r1 * r1 + e) < r1 * (r2 * r2 * r2 + e)) by (nonlinear_arith)
        requires
            0 < r1 < r2,
            e < r1 * r2 * (r1 + r2),
    ;
    assert(s * r2 * d1 <= s * r1 * d2) by (nonlinear_arith)
        requires
            r2 * (r1 * r1 * r1 + e) < r1 * (r2 * r2 * r2 + e),
            d1 == gd * (r1 * r1 * r1 + e),
            d2 == gd * (r2 * r2 * r2 + e),
            s >= 0,
            gd >= 1,
    ;
    if s > 0 {
        assert(s * r2 * d1 < s * r1 * d2) by (nonlinear_arith)
            requires
                r2 * (r1 * r1 * r1 + e) < r1 * (r2 * r2 * r2 + e),
                d1 == gd * (r1 * r1 * r1 + e),
                d2 == gd * (r2 * r2 * r2 + e),
                s > 0,
                gd >= 1,
        ;
    }
    lemma_spread_positive(r1, 0, cfg);
    lemma_spread_positive(r2, 0, cfg);
    assert(r2 * s >= 0 && r1 * s >= 0) by (nonlinear_arith)
        requires
            s >= 0,
            r1 > 0,
            r2 > 0,
    ;
    assert((r2 * s) * d1 <= (r1 * s) * d2) by (nonlinear_arith)
        requires
            s * r2 * d1 <= s * r1 * d2,
    ;
    lemma_floor_monotone(r2 * s, d2, r1 * s, d1);
}

/// Gravity is mutual: two bodies pull on each other with opposite forces,
/// and where their masses are equal their velocity changes are opposite,
/// so their total momentum is unchanged by it.
pub proof fn lemma_gravity_opposite(a: Sprite, b: Sprite, cfg: Config, dt: Ratio)
    requires
        a.wf(),
        b.wf(),
        cfg.wf(),
        dt.wf(),
    ensures
        gravity(a, b, cfg).0 == -gravity(b, a, cfg).0,
        gravity(a, b, cfg).1 == -gravity(b, a, cfg).1,
        a.mass == b.mass ==> dv(gravity(a, b, cfg).0, a.mass as int, dt) == -dv(
            gravity(b, a, cfg).0,
            b.mass as int,
            dt,
        ),
        a.mass == b.mass ==> dv(gravity(a, b, cfg).1, a.mass as int, dt) == -dv(
            gravity(b, a, cfg).1,
            b.mass as int,
            dt,
        ),
{
    let dx = b.loc.x - a.loc.x;
    let dy = b.loc.y - a.loc.y;
    assert(pull(a, b, cfg) == pull(b, a, cfg)) by (nonlinear_arith)
        requires
            pull(a, b, cfg) == a.mass * b.mass * cfg.gravity.num,
            pull(b, a, cfg) == b.mass * a.mass * cfg.gravity.num,
    ;
    assert(norm2_of(-dx, -dy) == norm2_of(dx, dy)) by (nonlinear_arith);
    let s = pull(a, b, cfg);
    let den = spread(dx, dy, cfg);
    lemma_spread_positive(dx, dy, cfg);
    assert(spread(-dx, -dy, cfg) == den);
    assert((-dx) * s == -(dx * s)) by (nonlinear_arith);
    assert((-dy) * s == -(dy * s)) by (nonlinear_arith);
    lemma_quot_odd(dx * s, den);
    lemma_quot_odd(dy * s, den);
    let gx = gravity(a, b, cfg).0;
    let gy = gravity(a, b, cfg).1;
    assert((-gx) * dt.num == -(gx * dt.num)) by (nonlinear_arith);
    assert((-gy) * dt.num == -(gy * dt.num)) by (nonlinear_arith);
    assert(a.mass * dt.den >= 1) by (nonlinear_arith)
        requires
            a.mass >= 1,
            dt.den >= 1,
    ;
    lemma_quot_odd(gx * dt.num, a.mass * dt.den);
    lemma_quot_odd(gy * dt.num, a.mass * dt.den);
}

proof fn lemma_quot_odd(a: int, b: int)
    requires
        b >= 1,
    ensures
        quot(-a, b) == -quot(a, b),
{
    if a > 0 {
        assert(-(-a) == a);
    } else if a < 0 {
        assert(quot(a, b) == -((-a) / b));
    } else {
        assert(-a == 0);
        assert(quot(0int, b) == 0int / b);
        assert(0int / b == 0) by (nonlinear_arith)
            requires
                b >= 1,
        ;
    }
}

} // verus!
