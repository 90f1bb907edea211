use flappy_core::components::{
    Components, DieWhenOutOfScreen, DrawParams, Flapable, Gravity, Position, RectangleCollider,
    Size, TextureRender, Velocity,
};
use flappy_core::fixed::{clamp_i64, fp_div, fp_mul};
use flappy_core::store::{CommandBuffer, Entity, Store};
use flappy_core::systems::{
    despawn_out_of_bounds_system, handle_collide, handle_flap, positions_in_bounds, render_pairs,
    run_frame, update_position_by_velocity, update_velocity_by_gravity,
};
use flappy_core::{BIRD_FLAP, MAX_SPEED, SCALE};

fn none_comps() -> Components {
    Components {
        position: None,
        velocity: None,
        collider: None,
        flap: None,
        render: None,
        gravity: None,
        die_when_out_of_screen: None,
    }
}

fn get_velocity(store: &Store, e: Entity) -> Velocity {
    store.get(e).unwrap().velocity.unwrap()
}

fn get_position(store: &Store, e: Entity) -> Position {
    store.get(e).unwrap().position.unwrap()
}

#[test]
fn fixed_point_products_are_exact() {
    // 4.9 * 0.016 = 0.0784 -> 7840 ticks
    assert_eq!(fp_mul(490_000, 1_600), 7_840);
    // truncation toward zero on a tiny negative product
    assert_eq!(fp_mul(-3, 2), 0);
    // 1.5 * -1.0 = -1.5
    assert_eq!(fp_mul(150_000, -100_000), -150_000);
    assert_eq!(fp_mul(0, 123), 0);
    // 600 / 5 = 120, in ticks
    assert_eq!(fp_div(600 * SCALE, 5 * SCALE), 120 * SCALE);
    assert_eq!(clamp_i64(25, 0, 10), 10);
    assert_eq!(clamp_i64(-25, 0, 10), 0);
    assert_eq!(clamp_i64(5, 0, 10), 5);
}

#[test]
fn gravity_adds_g_dt_and_clamps() {
    let mut store = Store::new();
    let e = store.spawn(Components {
        velocity: Some(Velocity::new(0, 0)),
        gravity: Some(Gravity),
        ..none_comps()
    });
    // no gravity tag: untouched
    let f = store.spawn(Components {
        velocity: Some(Velocity::new(0, 0)),
        ..none_comps()
    });
    // dt = 0.016 s; G = 490 units/s^2 -> dv = 7.84 units/s
    update_velocity_by_gravity(&mut store, 1_600);
    assert_eq!(get_velocity(&store, e).y, 784_000);
    assert_eq!(get_velocity(&store, f).y, 0);

    // near the speed bound the velocity clamps at MAX_SPEED
    let mut store2 = Store::new();
    let g = store2.spawn(Components {
        velocity: Some(Velocity::new(0, MAX_SPEED - 1)),
        gravity: Some(Gravity),
        ..none_comps()
    });
    update_velocity_by_gravity(&mut store2, 1_600);
    assert_eq!(get_velocity(&store2, g).y, MAX_SPEED);
}

#[test]
fn flap_subtracts_impulse_when_key_down() {
    let mut store = Store::new();
    let e = store.spawn(Components {
        velocity: Some(Velocity::new(0, 0)),
        flap: Some(Flapable::new(BIRD_FLAP, 32)),
        ..none_comps()
    });
    // key not down: untouched
    handle_flap(&mut store, &vec![7]);
    assert_eq!(get_velocity(&store, e).y, 0);
    // key down: velocity.y -= 80 units/s
    handle_flap(&mut store, &vec![7, 32]);
    assert_eq!(get_velocity(&store, e).y, -BIRD_FLAP);
    // clamped at -MAX_SPEED
    let f = store.spawn(Components {
        velocity: Some(Velocity::new(0, -15_000_000)),
        flap: Some(Flapable::new(BIRD_FLAP, 32)),
        ..none_comps()
    });
    handle_flap(&mut store, &vec![32]);
    assert_eq!(get_velocity(&store, f).y, -MAX_SPEED);
}

#[test]
fn position_integrates_velocity_with_floor() {
    let mut store = Store::new();
    // 1.0 units/s right, -2.0 units/s up, for one second: floored at 0
    let e = store.spawn(Components {
        position: Some(Position::new(0, 1_000)),
        velocity: Some(Velocity::new(100_000, -200_000)),
        ..none_comps()
    });
    // slow vertical speed (0.005 <= 0.01): no floor
    let f = store.spawn(Components {
        position: Some(Position::new(0, -5_000)),
        velocity: Some(Velocity::new(0, -500)),
        ..none_comps()
    });
    update_position_by_velocity(&mut store, 100_000);
    let pe = get_position(&store, e);
    assert_eq!(pe.x, 100_000);
    assert_eq!(pe.y, 0);
    let pf = get_position(&store, f);
    assert_eq!(pf.y, -5_500);
}

#[test]
fn collision_clears_every_collider_bearing_entity() {
    let mut store = Store::new();
    // player-like entity overlapping an obstacle
    let bird = store.spawn(Components {
        position: Some(Position::new(100 * SCALE, 100 * SCALE)),
        collider: Some(RectangleCollider::new(10 * SCALE, 10 * SCALE)),
        die_when_out_of_screen: Some(DieWhenOutOfScreen),
        gravity: Some(Gravity),
        velocity: Some(Velocity::new(0, 0)),
        flap: Some(Flapable::new(BIRD_FLAP, 32)),
        ..none_comps()
    });
    let obstacle = store.spawn(Components {
        position: Some(Position::new(104 * SCALE, 100 * SCALE)),
        collider: Some(RectangleCollider::new(10 * SCALE, 10 * SCALE)),
        ..none_comps()
    });
    // far away, unrelated to the overlapping pair, still cleared
    let faraway = store.spawn(Components {
        position: Some(Position::new(5_000 * SCALE, 100 * SCALE)),
        collider: Some(RectangleCollider::new(10 * SCALE, 10 * SCALE)),
        ..none_comps()
    });
    // no collider: survives
    let ghostly = store.spawn(Components {
        position: Some(Position::new(100 * SCALE, 100 * SCALE)),
        ..none_comps()
    });
    let mut cmd = CommandBuffer::new();
    handle_collide(&store, &mut cmd);
    cmd.apply(&mut store);
    assert!(!store.entity_exists(bird));
    assert!(!store.entity_exists(obstacle));
    assert!(!store.entity_exists(faraway));
    assert!(store.entity_exists(ghostly));
}

#[test]
fn collision_pass_leaves_disjoint_entities_alone() {
    let mut store = Store::new();
    let a = store.spawn(Components {
        position: Some(Position::new(0, 0)),
        collider: Some(RectangleCollider::new(10 * SCALE, 10 * SCALE)),
        ..none_comps()
    });
    let b = store.spawn(Components {
        position: Some(Position::new(100 * SCALE, 0)),
        collider: Some(RectangleCollider::new(10 * SCALE, 10 * SCALE)),
        ..none_comps()
    });
    let mut cmd = CommandBuffer::new();
    handle_collide(&store, &mut cmd);
    cmd.apply(&mut store);
    assert!(store.entity_exists(a));
    assert!(store.entity_exists(b));
}

#[test]
fn lifecycle_despawns_past_left_and_bottom_only() {
    let screen_h = 600 * SCALE;
    let mut store = Store::new();
    let make = |store: &mut Store, x: i64, y: i64| {
        store.spawn(Components {
            position: Some(Position::new(x, y)),
            collider: Some(RectangleCollider::new(50 * SCALE, 10 * SCALE)),
            die_when_out_of_screen: Some(DieWhenOutOfScreen),
            ..none_comps()
        })
    };
    // width 50: half-width 25; x = -26 goes, x = -24 stays
    let gone_left = make(&mut store, -26 * SCALE, 0);
    let kept_left = make(&mut store, -24 * SCALE, 0);
    // height 10: half-height 5; one unit past the bottom goes, exactly at it stays
    let gone_bottom = make(&mut store, 0, screen_h + 5 * SCALE + SCALE);
    let kept_bottom = make(&mut store, 0, screen_h + 5 * SCALE);
    // far right and above the top are never despawned
    let kept_right = make(&mut store, 10_000 * SCALE, 0);
    let kept_top = make(&mut store, 0, -10_000 * SCALE);
    // no despawn tag: never touched
    let untagged = store.spawn(Components {
        position: Some(Position::new(-500 * SCALE, 0)),
        collider: Some(RectangleCollider::new(50 * SCALE, 10 * SCALE)),
        ..none_comps()
    });
    let mut cmd = CommandBuffer::new();
    despawn_out_of_bounds_system(&store, &mut cmd, screen_h);
    cmd.apply(&mut store);
    assert!(!store.entity_exists(gone_left));
    assert!(store.entity_exists(kept_left));
    assert!(!store.entity_exists(gone_bottom));
    assert!(store.entity_exists(kept_bottom));
    assert!(store.entity_exists(kept_right));
    assert!(store.entity_exists(kept_top));
    assert!(store.entity_exists(untagged));
}

#[test]
fn frame_updates_velocity_then_position() {
    // dt = 0.016 s, G = 490, start at rest: velocity becomes 7.84 and the
    // position gains 7.84 * 0.016 = 0.12544 units, gravity running before
    // the integration
    let mut store = Store::new();
    let e = store.spawn(Components {
        position: Some(Position::new(100 * SCALE, 100 * SCALE)),
        velocity: Some(Velocity::new(0, 0)),
        gravity: Some(Gravity),
        flap: Some(Flapable::new(BIRD_FLAP, 32)),
        ..none_comps()
    });
    assert!(positions_in_bounds(&store));
    run_frame(&mut store, 1_600, &vec![], 600 * SCALE);
    let v = get_velocity(&store, e);
    let p = get_position(&store, e);
    assert_eq!(v.y, 784_000);
    assert_eq!(p.y, 100 * SCALE + 12_544);
    assert_eq!(p.x, 100 * SCALE);
}

#[test]
fn frame_applies_flap_after_gravity() {
    // same frame with the flap key down: 7.84 - 80 = -72.16 units/s
    let mut store = Store::new();
    let e = store.spawn(Components {
        position: Some(Position::new(100 * SCALE, 100 * SCALE)),
        velocity: Some(Velocity::new(0, 0)),
        gravity: Some(Gravity),
        flap: Some(Flapable::new(BIRD_FLAP, 32)),
        ..none_comps()
    });
    run_frame(&mut store, 1_600, &vec![32], 600 * SCALE);
    assert_eq!(get_velocity(&store, e).y, -7_216_000);
}

#[test]
fn despawn_is_idempotent_and_exact() {
    let mut store = Store::new();
    let a = store.spawn(none_comps());
    let b = store.spawn(none_comps());
    assert!(store.entity_exists(a));
    store.despawn(a);
    assert!(!store.entity_exists(a));
    assert!(store.entity_exists(b));
    store.despawn(a);
    assert!(!store.entity_exists(a));
    assert!(store.entity_exists(b));
    // identifiers are not reused
    let c = store.spawn(none_comps());
    assert_ne!(c, a);
    assert_ne!(c, b);
}

#[test]
fn command_buffer_removes_exactly_the_queued_entities() {
    let mut store = Store::new();
    let a = store.spawn(none_comps());
    let b = store.spawn(none_comps());
    let c = store.spawn(none_comps());
    let mut cmd = CommandBuffer::new();
    cmd.queue_despawn(a);
    cmd.queue_despawn(c);
    cmd.apply(&mut store);
    assert!(!store.entity_exists(a));
    assert!(store.entity_exists(b));
    assert!(!store.entity_exists(c));
    // the buffer is emptied by the flush
    cmd.apply(&mut store);
    assert!(store.entity_exists(b));
}

#[test]
fn render_pairs_lists_sprites_in_store_order() {
    let mut store = Store::new();
    store.spawn(Components {
        position: Some(Position::new(1, 2)),
        render: Some(TextureRender::new(
            7,
            DrawParams { dest_size: None, rotated_half_turn: false },
        )),
        ..none_comps()
    });
    // no sprite: skipped
    store.spawn(Components {
        position: Some(Position::new(3, 4)),
        ..none_comps()
    });
    store.spawn(Components {
        position: Some(Position::new(5, 6)),
        render: Some(TextureRender::new(
            9,
            DrawParams {
                dest_size: Some(Size { width: 10, height: 20 }),
                rotated_half_turn: true,
            },
        )),
        ..none_comps()
    });
    let pairs = render_pairs(&store);
    assert_eq!(pairs.len(), 2);
    assert_eq!(pairs[0].0.texture, 7);
    assert_eq!(pairs[0].1.x, 1);
    assert_eq!(pairs[1].0.texture, 9);
    assert!(pairs[1].0.params.rotated_half_turn);
    assert_eq!(pairs[1].1.y, 6);
}
