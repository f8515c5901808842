use space_shooter::frame::{step_sprite, tick};
use space_shooter::game::{
    CircleParameters, ControlInput, Config, Controller, Ratio, RectangleParameters, Shape,
    Sprite, SpriteType, World,
};
use space_shooter::lifecycle::{fire_step, hit_by_bullet, hits_box, remove_expired, spawn_bullet};
use space_shooter::physics::{clamp_to_arena, div_toward_zero, gravity_on, integrate, isqrt, net_force_on, thrust_of};
use space_shooter::vec2::Vec2;

fn config() -> Config {
    Config {
        gravity: Ratio { num: 1, den: 10 },
        softening: 1,
        friction: Ratio { num: 0, den: 1 },
        max_vel: 40,
        max_width: 800,
        bullet_mass: 1,
        bullet_radius: 4,
        bullet_offset: 50,
        fire_interval: 60,
        hit_size: 40,
    }
}

fn idle() -> ControlInput {
    ControlInput { up: false, down: false, left: false, right: false, fire: false }
}

fn body(x: i64, y: i64, vel: Option<Vec2>, mass: u64, kind: SpriteType) -> Sprite {
    Sprite {
        loc: Vec2 { x, y },
        vel,
        mass,
        shape: Shape::Circle(CircleParameters { r: 10 }),
        sprite_type: kind,
        controller: None,
        bullet_interval_counter: 0,
    }
}

fn player(x: i64, y: i64, slot: usize) -> Sprite {
    Sprite {
        loc: Vec2 { x, y },
        vel: Some(Vec2 { x: 0, y: 0 }),
        mass: 1,
        shape: Shape::Rectangle(RectangleParameters { width_x: 40, width_y: 40 }),
        sprite_type: SpriteType::Player,
        controller: Some(Controller { slot, key_force: 1 }),
        bullet_interval_counter: 0,
    }
}

fn bullet(x: i64, y: i64) -> Sprite {
    body(x, y, Some(Vec2 { x: 0, y: 0 }), 1, SpriteType::Bullet)
}

#[test]
fn vector_operations() {
    let a = Vec2 { x: 7, y: -2 };
    let b = Vec2 { x: 3, y: 5 };
    assert_eq!(a.sub(b), Vec2 { x: 4, y: -7 });
    assert_eq!(a.mul(3), Vec2 { x: 21, y: -6 });
    assert_eq!(a.mul(-1), Vec2 { x: -7, y: 2 });
    assert_eq!(Vec2 { x: 3, y: -4 }.norm2(), 25);
    assert_eq!(Vec2 { x: 0, y: 0 }.norm2(), 0);
    assert_eq!(Vec2 { x: i64::MIN, y: i64::MIN }.norm2(), 1u128 << 127);
}

#[test]
fn integer_square_root() {
    assert_eq!(isqrt(0), 0);
    assert_eq!(isqrt(1), 1);
    assert_eq!(isqrt(24), 4);
    assert_eq!(isqrt(25), 5);
    assert_eq!(isqrt(26), 5);
    assert_eq!(isqrt(1u128 << 66), 1u128 << 33);
}

#[test]
fn division_rounds_toward_zero() {
    assert_eq!(div_toward_zero(7, 2), 3);
    assert_eq!(div_toward_zero(-7, 2), -3);
    assert_eq!(div_toward_zero(0, 5), 0);
}

#[test]
fn gravity_points_toward_other_body() {
    let cfg = config();
    let me = body(0, 0, Some(Vec2 { x: 0, y: 0 }), 1000, SpriteType::Planet);
    let other = body(3, 4, None, 1000, SpriteType::Planet);
    // 1000 * 1000 * (1/10) * d / (25 * 5 + 1)
    assert_eq!(gravity_on(&me, &other, &cfg), (2380, 3174));
    assert_eq!(gravity_on(&other, &me, &cfg), (-2380, -3174));
}

#[test]
fn gravity_weakens_with_distance() {
    let cfg = config();
    let me = body(0, 0, None, 1000, SpriteType::Planet);
    let near = body(10, 0, None, 1000, SpriteType::Planet);
    let far = body(20, 0, None, 1000, SpriteType::Planet);
    let fnear = gravity_on(&me, &near, &cfg).0;
    let ffar = gravity_on(&me, &far, &cfg).0;
    assert!(ffar > 0);
    assert!(ffar < fnear);
}

#[test]
fn thrust_follows_keys_and_speed_cap() {
    let cfg = config();
    let p = player(100, 100, 0);
    let mut both = idle();
    both.left = true;
    both.right = true;
    both.down = true;
    assert_eq!(thrust_of(&p, &cfg, &vec![both]), (-1, 1));
    let mut right = idle();
    right.right = true;
    assert_eq!(thrust_of(&p, &cfg, &vec![right]), (1, 0));
    let mut fast = p;
    fast.vel = Some(Vec2 { x: 40, y: 39 });
    let mut all = idle();
    all.right = true;
    all.down = true;
    assert_eq!(thrust_of(&fast, &cfg, &vec![all]), (0, 1));
    // A slot without input holds nothing.
    assert_eq!(thrust_of(&player(100, 100, 5), &cfg, &vec![right]), (0, 0));
}

#[test]
fn drag_opposes_velocity() {
    let mut cfg = config();
    cfg.gravity = Ratio { num: 0, den: 1 };
    cfg.friction = Ratio { num: 1, den: 2 };
    let s = body(100, 100, Some(Vec2 { x: 9, y: -9 }), 1, SpriteType::Bullet);
    assert_eq!(net_force_on(&vec![s], 0, &cfg, &vec![]), (-4, 4));
}

#[test]
fn integration_step_exact() {
    let cfg = config();
    let mut s = body(100, 100, Some(Vec2 { x: 2, y: 3 }), 2, SpriteType::Bullet);
    integrate(&mut s, 20, -40, &cfg, Ratio { num: 1, den: 10 });
    assert_eq!(s.vel, Some(Vec2 { x: 3, y: 1 }));
    assert_eq!(s.loc, Vec2 { x: 103, y: 101 });
}

#[test]
fn clamp_corrects_first_boundary_only() {
    let mut loc = Vec2 { x: -5, y: 900 };
    let mut vel = Vec2 { x: -1, y: 4 };
    clamp_to_arena(&mut loc, &mut vel, 800);
    assert_eq!(loc, Vec2 { x: 0, y: 900 });
    assert_eq!(vel, Vec2 { x: 0, y: 4 });
    let mut loc = Vec2 { x: 10, y: 900 };
    let mut vel = Vec2 { x: -1, y: 4 };
    clamp_to_arena(&mut loc, &mut vel, 800);
    assert_eq!(loc, Vec2 { x: 10, y: 800 });
    assert_eq!(vel, Vec2 { x: -1, y: 0 });
}

#[test]
fn body_at_right_edge_is_clamped() {
    let cfg = config();
    let s = body(800, 400, Some(Vec2 { x: 5, y: 0 }), 1, SpriteType::Player);
    let mut world = World { sprites: vec![s], dt: Ratio { num: 1, den: 10 } };
    tick(&mut world, &cfg, &vec![]);
    assert_eq!(world.sprites[0].loc, Vec2 { x: 800, y: 400 });
    assert_eq!(world.sprites[0].vel, Some(Vec2 { x: 0, y: 0 }));
}

#[test]
fn bodies_stay_in_arena() {
    let cfg = config();
    let mut world = World {
        sprites: vec![
            player(40, 40, 0),
            player(760, 760, 1),
            body(400, 400, None, 10_000, SpriteType::Planet),
        ],
        dt: Ratio { num: 1, den: 10 },
    };
    let mut keys = idle();
    keys.left = true;
    keys.up = true;
    for _ in 0..200 {
        tick(&mut world, &cfg, &vec![keys, idle()]);
        for s in world.sprites.iter() {
            assert!(0 <= s.loc.x && s.loc.x <= 800);
            assert!(0 <= s.loc.y && s.loc.y <= 800);
        }
    }
}

#[test]
fn held_fire_is_throttled() {
    let mut counter: usize = 0;
    let mut shots = 0;
    for _ in 0..150 {
        if fire_step(&mut counter, true, 60) {
            shots += 1;
        }
    }
    assert_eq!(shots, 2);
    assert_eq!(counter, 30);
    let mut counter: usize = 0;
    assert!(!fire_step(&mut counter, false, 1));
    assert_eq!(counter, 1);
}

#[test]
fn held_fire_spawns_bullets_through_ticks() {
    let mut cfg = config();
    cfg.gravity = Ratio { num: 0, den: 1 };
    cfg.fire_interval = 3;
    let mut world = World { sprites: vec![player(400, 400, 0)], dt: Ratio { num: 1, den: 10 } };
    let mut fire = idle();
    fire.fire = true;
    for _ in 0..7 {
        tick(&mut world, &cfg, &vec![fire]);
    }
    let bullets = world.sprites.iter().filter(|s| s.sprite_type == SpriteType::Bullet).count();
    assert_eq!(bullets, 2);
    assert_eq!(world.sprites[0].bullet_interval_counter, 1);
}

#[test]
fn spawned_bullet_is_offset_by_velocity_sign() {
    let cfg = config();
    let mut p = player(400, 400, 0);
    p.vel = Some(Vec2 { x: 3, y: 0 });
    p.bullet_interval_counter = 7;
    let b = spawn_bullet(&p, &cfg);
    assert_eq!(b.loc, Vec2 { x: 450, y: 350 });
    assert_eq!(b.vel, Some(Vec2 { x: 3, y: 0 }));
    assert_eq!(b.mass, 1);
    assert_eq!(b.shape, Shape::Circle(CircleParameters { r: 4 }));
    assert_eq!(b.sprite_type, SpriteType::Bullet);
    assert_eq!(b.controller, None);
    assert_eq!(b.bullet_interval_counter, 7);
}

#[test]
fn step_fires_and_resets_counter() {
    let mut cfg = config();
    cfg.fire_interval = 1;
    let snap = vec![player(400, 400, 0)];
    let mut fire = idle();
    fire.fire = true;
    let (updated, shot) = step_sprite(&snap, 0, &cfg, Ratio { num: 1, den: 10 }, &vec![fire]);
    assert_eq!(updated.bullet_interval_counter, 0);
    assert_eq!(shot.unwrap().loc, Vec2 { x: 350, y: 350 });
}

#[test]
fn bullet_inside_player_box_hits() {
    assert!(hits_box(Vec2 { x: 0, y: 0 }, Vec2 { x: 5, y: 5 }, 40));
    assert!(!hits_box(Vec2 { x: 0, y: 0 }, Vec2 { x: 45, y: 45 }, 40));
    assert!(hits_box(Vec2 { x: 0, y: 0 }, Vec2 { x: 40, y: 40 }, 40));
    let cfg = config();
    let snap = vec![player(0, 0, 0), bullet(5, 5)];
    assert!(hit_by_bullet(&snap, 0, &cfg));
    assert!(!hit_by_bullet(&snap, 1, &cfg));
    let snap = vec![player(0, 0, 0), bullet(45, 45)];
    assert!(!hit_by_bullet(&snap, 0, &cfg));
}

#[test]
fn hit_player_is_removed_once() {
    let mut cfg = config();
    cfg.gravity = Ratio { num: 0, den: 1 };
    let mut world = World {
        sprites: vec![player(100, 100, 0), bullet(105, 105), bullet(110, 110), player(600, 600, 1)],
        dt: Ratio { num: 1, den: 10 },
    };
    tick(&mut world, &cfg, &vec![]);
    assert_eq!(world.sprites.len(), 3);
    assert_eq!(world.sprites[0].sprite_type, SpriteType::Bullet);
    assert_eq!(world.sprites[2].loc, Vec2 { x: 600, y: 600 });
}

#[test]
fn expiry_filter_is_idempotent() {
    let sprites = vec![
        bullet(-1, 5),
        body(-50, -50, None, 1, SpriteType::Planet),
        bullet(0, 800),
        bullet(801, 3),
        player(900, 900, 0),
    ];
    let once = remove_expired(&sprites, 800);
    assert_eq!(once.len(), 3);
    assert_eq!(once[0].loc, Vec2 { x: -50, y: -50 });
    assert_eq!(once[1].loc, Vec2 { x: 0, y: 800 });
    assert_eq!(once[2].loc, Vec2 { x: 900, y: 900 });
    let twice = remove_expired(&once, 800);
    assert_eq!(twice, once);
    assert!(remove_expired(&vec![], 800).is_empty());
}

#[test]
fn immovable_body_never_moves() {
    let cfg = config();
    let sun = body(400, 400, None, 10_000, SpriteType::Planet);
    let mut world = World {
        sprites: vec![player(40, 40, 0), sun, player(760, 760, 1)],
        dt: Ratio { num: 1, den: 10 },
    };
    let mut keys = idle();
    keys.right = true;
    keys.down = true;
    for _ in 0..100 {
        tick(&mut world, &cfg, &vec![keys, keys]);
        assert_eq!(world.sprites[1], sun);
    }
}

#[test]
fn equal_masses_conserve_momentum() {
    let mut cfg = config();
    cfg.gravity = Ratio { num: 1, den: 1 };
    cfg.max_width = 2_000_000;
    let a = body(400_000, 400_000, Some(Vec2 { x: 0, y: 0 }), 1_000_000, SpriteType::Planet);
    let b = body(400_500, 400_300, Some(Vec2 { x: 0, y: 0 }), 1_000_000, SpriteType::Planet);
    let mut world = World { sprites: vec![a, b], dt: Ratio { num: 1, den: 1 } };
    let mut moved = false;
    for _ in 0..5 {
        tick(&mut world, &cfg, &vec![]);
        let va = world.sprites[0].vel.unwrap();
        let vb = world.sprites[1].vel.unwrap();
        assert_eq!(va.x + vb.x, 0);
        assert_eq!(va.y + vb.y, 0);
        if va.x != 0 {
            moved = true;
        }
    }
    assert!(moved);
}
