use vstd::prelude::*;
use crate::vec2::Vec2;

verus! {

/// Largest magnitude of a coordinate or a velocity component; values beyond
/// it saturate.
pub const COORD_LIMIT: i64 = 2147483648;

/// Largest mass of a body.
pub const MASS_LIMIT: u64 = 16777216;

/// Largest numerator or denominator of a ratio constant, and largest
/// softening term.
pub const RATIO_LIMIT: u64 = 1048576;

/// Largest key force.
pub const KEY_FORCE_LIMIT: u64 = 1048576;

#[derive(Clone, Copy, PartialEq, Eq, Debug)]
pub struct CircleParameters {
    pub r: u64,
}

#[derive(Clone, Copy, PartialEq, Eq, Debug)]
pub struct RectangleParameters {
    pub width_x: u64,
    pub width_y: u64,
}

/// Geometry of a body, used for drawing.
#[derive(Clone, Copy, PartialEq, Eq, Debug)]
pub enum Shape {
    Circle(CircleParameters),
    Rectangle(RectangleParameters),
}

#[derive(Clone, Copy, PartialEq, Eq, Debug)]
pub enum SpriteType {
    Planet,
    Bullet,
    Player,
}

/// Thrust of a controlled body. `slot` picks the entry of the per-tick input
/// list that steers it; the force is the same on both axes.
#[derive(Clone, Copy, PartialEq, Eq, Debug)]
pub struct Controller {
    pub slot: usize,
    pub key_force: u64,
}

/// Which inputs of one slot are held during a tick.
#[derive(Clone, Copy, PartialEq, Eq, Debug)]
pub struct ControlInput {
    pub up: bool,
    pub down: bool,
    pub left: bool,
    pub right: bool,
    pub fire: bool,
}

/// A body of the arena. `vel == None` makes it immovable.
#[derive(Clone, Copy, PartialEq, Eq, Debug)]
pub struct Sprite {
    pub loc: Vec2,
    pub vel: Option<Vec2>,
    pub mass: u64,
    pub shape: Shape,
    pub sprite_type: SpriteType,
    pub controller: Option<Controller>,
    pub bullet_interval_counter: usize,
}

/// The fraction `num / den`.
#[derive(Clone, Copy, PartialEq, Eq, Debug)]
pub struct Ratio {
    pub num: u64,
    pub den: u64,
}

/// Tunable constants of the simulation.
#[derive(Clone, Copy, PartialEq, Eq, Debug)]
pub struct Config {
    /// Gravitational constant.
    pub gravity: Ratio,
    /// Added to the cubed distance so that near bodies stay finite.
    pub softening: u64,
    /// Drag per unit of velocity.
    pub friction: Ratio,
    /// Thrust is refused on an axis whose velocity has reached this.
    pub max_vel: i64,
    /// The arena is `[0, max_width]` on both axes.
    pub max_width: i64,
    pub bullet_mass: u64,
    pub bullet_radius: u64,
    /// How far from the firer a bullet appears, on each axis.
    pub bullet_offset: i64,
    /// Ticks that must pass between two shots.
    pub fire_interval: usize,
    /// Side of the square hit box anchored at a player's position.
    pub hit_size: i64,
}

#[derive(Clone, PartialEq, Eq, Debug)]
pub struct World {
    pub sprites: Vec<Sprite>,
    /// Time step used to integrate velocity.
    pub dt: Ratio,
}

pub open spec fn within_limit(v: int) -> bool {
    -COORD_LIMIT <= v <= COORD_LIMIT
}

impl Ratio {
    pub open spec fn wf(self) -> bool {
        1 <= self.den <= RATIO_LIMIT && self.num <= RATIO_LIMIT
    }
}

impl Config {
    pub open spec fn wf(self) -> bool {
        &&& self.gravity.wf()
        &&& self.friction.wf()
        &&& 1 <= self.softening <= RATIO_LIMIT
        &&& 0 < self.max_width <= COORD_LIMIT
        &&& 1 <= self.bullet_mass <= MASS_LIMIT
        &&& 0 <= self.bullet_offset <= COORD_LIMIT
        &&& 0 <= self.hit_size <= COORD_LIMIT
    }
}

impl Sprite {
    /// Bounds that keep the arithmetic of a tick in range, and the rule that
    /// a controlled body can move.
    pub open spec fn wf(self) -> bool {
        &&& within_limit(self.loc.x as int)
        &&& within_limit(self.loc.y as int)
        &&& match self.vel {
            Some(v) => within_limit(v.x as int) && within_limit(v.y as int),
            None => true,
        }
        &&& 1 <= self.mass <= MASS_LIMIT
        &&& match self.controller {
            Some(c) => self.vel.is_some() && c.key_force <= KEY_FORCE_LIMIT,
            None => true,
        }
    }
}

pub open spec fn all_wf(s: Seq<Sprite>) -> bool {
    forall|i: int| 0 <= i < s.len() ==> #[trigger] s[i].wf()
}

impl World {
    pub open spec fn wf(self) -> bool {
        self.dt.wf() && all_wf(self.sprites@)
    }
}

fn limited(v: i64) -> (r: bool)
    ensures
        r == within_limit(v as int),
{
    -COORD_LIMIT <= v && v <= COORD_LIMIT
}

impl Ratio {
    /// Whether the ratio has a positive denominator and both terms within
    /// `RATIO_LIMIT`.
    pub fn is_valid(&self) -> (r: bool)
        ensures
            r == self.wf(),
    {
        1 <= self.den && self.den <= RATIO_LIMIT && self.num <= RATIO_LIMIT
    }
}

impl Config {
    /// Whether the constants are within the bounds a tick needs.
    pub fn is_valid(&self) -> (r: bool)
        ensures
            r == self.wf(),
    {
        self.gravity.is_valid() && self.friction.is_valid() && 1 <= self.softening
            && self.softening <= RATIO_LIMIT && 0 < self.max_width && self.max_width
            <= COORD_LIMIT && 1 <= self.bullet_mass && self.bullet_mass <= MASS_LIMIT && 0
            <= self.bullet_offset && self.bullet_offset <= COORD_LIMIT && 0 <= self.hit_size
            && self.hit_size <= COORD_LIMIT
    }
}

impl Sprite {
    /// Whether the body is within bounds and, if controlled, movable.
    pub fn is_valid(&self) -> (r: bool)
        ensures
            r == self.wf(),
    {
        let vel_ok: bool = match self.vel {
            Some(v) => limited(v.x) && limited(v.y),
            None => true,
        };
        let controller_ok: bool = match self.controller {
            Some(c) => self.vel.is_some() && c.key_force <= KEY_FORCE_LIMIT,
            None => true,
        };
        limited(self.loc.x) && limited(self.loc.y) && vel_ok && 1 <= self.mass && self.mass
            <= MASS_LIMIT && controller_ok
    }

    /// Whether the body has a controller but no velocity: a body that could
    /// never obey its controls.
    pub fn is_stuck_controlled(&self) -> (r: bool)
        ensures
            r == (self.controller.is_some() && self.vel.is_none()),
            r ==> !self.wf(),
    {
        self.controller.is_some() && self.vel.is_none()
    }
}

impl World {
    /// Whether the time step and every body are valid.
    pub fn is_valid(&self) -> (r: bool)
        ensures
            r == self.wf(),
    {
        if !self.dt.is_valid() {
            return false;
        }
        let mut i: usize = 0;
        while i < self.sprites.len()
            invariant
                i <= self.sprites.len(),
                forall|k: int| 0 <= k < i ==> #[trigger] self.sprites@[k].wf(),
            decreases self.sprites.len() - i,
        {
            if !self.sprites[i].is_valid() {
                return false;
            }
            i = i + 1;
        }
        true
    }
}

} // verus!
