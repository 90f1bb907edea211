use flappy_core::components::{
    Components, DieWhenOutOfScreen, DrawParams, Flapable, Gravity, Position, RectangleCollider,
    Size, Velocity,
};
use flappy_core::game::{game_frame, Assets, FrameInput, GameMode, GameState, Screen};
use flappy_core::spawn::{ensure_track_filled, restart, spawn_barrier, spawn_barrier_randomly, spawn_player};
use flappy_core::store::{Entity, Store};
use flappy_core::{BIRD_FLAP, SCALE};

fn assets() -> Assets {
    Assets {
        bird_texture: 1,
        bird_params: DrawParams {
            dest_size: Some(Size { width: 51 * SCALE, height: 36 * SCALE }),
            rotated_half_turn: false,
        },
        bird_size: Size { width: 51 * SCALE, height: 36 * SCALE },
        bird_key: 32,
        barrier_texture: 2,
        barrier_size: Size { width: 26 * SCALE, height: 160 * SCALE },
    }
}

fn screen() -> Screen {
    Screen { width: 800 * SCALE, height: 600 * SCALE }
}

fn none_comps() -> Components {
    Components {
        position: None,
        velocity: None,
        collider: None,
        flap: None,
        render: None,
        gravity: None,
        die_when_out_of_screen: None,
    }
}

#[test]
fn spawn_barrier_has_the_specified_geometry() {
    // x = 500, gap center 300, gap radius 100, sprite height 64:
    // upper obstacle at y = 300 - 100 - 32 = 168, lower at 432, both at x = 500
    let mut store = Store::new();
    let size = Size { width: 26 * SCALE, height: 64 * SCALE };
    let (upper, lower) = spawn_barrier(&mut store, 500 * SCALE, 300 * SCALE, 100 * SCALE, 2, size);
    let up = store.get(upper).unwrap();
    let lo = store.get(lower).unwrap();
    assert_eq!(up.position.unwrap().x, 500 * SCALE);
    assert_eq!(up.position.unwrap().y, 168 * SCALE);
    assert_eq!(lo.position.unwrap().x, 500 * SCALE);
    assert_eq!(lo.position.unwrap().y, 432 * SCALE);
    // both scroll left at the fixed speed and carry the sprite-sized collider
    assert_eq!(up.velocity.unwrap().x, -flappy_core::BARRIER_LEFT_SPEED);
    assert_eq!(lo.velocity.unwrap().x, -flappy_core::BARRIER_LEFT_SPEED);
    assert_eq!(up.collider.unwrap().height, 64 * SCALE);
    // the upper sprite is the rotated one
    assert!(up.render.unwrap().params.rotated_half_turn);
    assert!(!lo.render.unwrap().params.rotated_half_turn);
    // obstacles carry no gravity, flap or despawn tag
    assert!(up.gravity.is_none());
    assert!(up.flap.is_none());
    assert!(up.die_when_out_of_screen.is_none());
}

#[test]
fn spawn_player_carries_the_full_component_set() {
    let mut store = Store::new();
    let a = assets();
    let e = spawn_player(
        &mut store,
        Position::new(100 * SCALE, 100 * SCALE),
        a.bird_texture,
        a.bird_params,
        a.bird_size,
        a.bird_key,
    );
    let c = store.get(e).unwrap();
    assert_eq!(c.position.unwrap().x, 100 * SCALE);
    assert_eq!(c.velocity.unwrap().x, 0);
    assert_eq!(c.velocity.unwrap().y, 0);
    assert_eq!(c.collider.unwrap().width, a.bird_size.width);
    assert_eq!(c.flap.unwrap().velocity_sub, BIRD_FLAP);
    assert_eq!(c.flap.unwrap().key, 32);
    assert!(c.gravity.is_some());
    assert!(c.die_when_out_of_screen.is_some());
    assert!(c.render.is_some());
}

#[test]
fn random_pair_respects_the_gap_bounds() {
    // gap radius = screen_height / U(5, 7), gap center within
    // [radius, screen_height - radius], whatever was drawn
    let screen_h = 600 * SCALE;
    let size = Size { width: 26 * SCALE, height: 160 * SCALE };
    for _ in 0..50 {
        let mut store = Store::new();
        let (upper, lower) = spawn_barrier_randomly(500 * SCALE, &mut store, 2, size, screen_h);
        let up_y = store.get(upper).unwrap().position.unwrap().y;
        let lo_y = store.get(lower).unwrap().position.unwrap().y;
        let two_radius = lo_y - up_y - size.height;
        // radius within [600/7, 600/5] units of the 600-unit screen
        assert!(two_radius >= 2 * (screen_h / 7 - 1));
        assert!(two_radius <= 2 * (screen_h / 5));
        // gap center within [radius, screen_height - radius]
        let center = up_y + size.height / 2 + two_radius / 2;
        assert!(center >= two_radius / 2 - 1);
        assert!(center <= screen_h - two_radius / 2 + 1);
    }
}

#[test]
fn track_fill_reaches_the_screen_width() {
    let mut store = Store::new();
    let size = Size { width: 26 * SCALE, height: 160 * SCALE };
    let latest = ensure_track_filled(&mut store, 0, 2, size, 800 * SCALE, 600 * SCALE);
    let latest = latest.expect("starting before the screen edge spawns at least one pair");
    assert!(store.entity_exists(latest));
    // pairs: even count, strictly increasing x, last one past the width
    let n = store.ents.len();
    assert!(n >= 2 && n % 2 == 0);
    let mut prev_x = 0i64;
    let mut k = 0usize;
    while k < n {
        let x = store.ents[k].comps.position.unwrap().x;
        if k % 2 == 0 {
            assert!(x >= prev_x + 200 * SCALE);
            assert!(x <= prev_x + 500 * SCALE);
            prev_x = x;
        } else {
            assert_eq!(x, prev_x);
        }
        k += 1;
    }
    assert!(prev_x >= 800 * SCALE);
    // starting past the screen width spawns nothing
    let mut store2 = Store::new();
    let none = ensure_track_filled(&mut store2, 900 * SCALE, 2, size, 800 * SCALE, 600 * SCALE);
    assert!(none.is_none());
    assert_eq!(store2.ents.len(), 0);
}

#[test]
fn restart_resets_to_player_and_one_pair() {
    let mut store = Store::new();
    store.spawn(none_comps());
    store.spawn(none_comps());
    let a = assets();
    let (bird, latest) = restart(
        &mut store,
        a.bird_texture,
        a.bird_params,
        a.bird_size,
        a.barrier_texture,
        a.barrier_size,
        a.bird_key,
        600 * SCALE,
    );
    // the old population is gone; exactly a player and one pair remain
    assert_eq!(store.ents.len(), 3);
    assert!(store.entity_exists(bird));
    assert!(store.entity_exists(latest));
    let b = store.get(bird).unwrap();
    assert_eq!(b.position.unwrap().x, 100 * SCALE);
    assert_eq!(b.position.unwrap().y, 100 * SCALE);
    let l = store.get(latest).unwrap();
    assert_eq!(l.position.unwrap().x, 1_000 * SCALE);
}

#[test]
fn start_input_enters_playing_with_one_player_and_one_pair() {
    let mut store = Store::new();
    let mut gs = GameState {
        mode: GameMode::MainMenu,
        bird: Entity { id: 0 },
        latest: Entity { id: 0 },
    };
    let a = assets();
    let input = FrameInput { start_down: true, keys_down: vec![], dt: 1_600 };
    game_frame(&mut gs, &mut store, &input, &a, screen());
    assert!(matches!(gs.mode, GameMode::Playing));
    assert_eq!(store.ents.len(), 3);
    assert!(store.entity_exists(gs.bird));
    assert!(store.entity_exists(gs.latest));
    // exactly one entity has the player's component set
    let mut players: usize = 0;
    for k in 0..store.ents.len() {
        let c = store.ents[k].comps;
        if c.flap.is_some() && c.gravity.is_some() && c.die_when_out_of_screen.is_some() {
            players += 1;
        }
    }
    assert_eq!(players, 1);
}

#[test]
fn menus_do_nothing_without_the_start_input() {
    let mut store = Store::new();
    let mut gs = GameState {
        mode: GameMode::MainMenu,
        bird: Entity { id: 0 },
        latest: Entity { id: 0 },
    };
    let a = assets();
    let input = FrameInput { start_down: false, keys_down: vec![32], dt: 1_600 };
    game_frame(&mut gs, &mut store, &input, &a, screen());
    assert!(matches!(gs.mode, GameMode::MainMenu));
    assert_eq!(store.ents.len(), 0);
}

#[test]
fn playing_survives_a_harmless_frame() {
    let mut store = Store::new();
    let mut gs = GameState {
        mode: GameMode::MainMenu,
        bird: Entity { id: 0 },
        latest: Entity { id: 0 },
    };
    let a = assets();
    let start = FrameInput { start_down: true, keys_down: vec![], dt: 1_600 };
    game_frame(&mut gs, &mut store, &start, &a, screen());
    let frame = FrameInput { start_down: false, keys_down: vec![], dt: 1_600 };
    game_frame(&mut gs, &mut store, &frame, &a, screen());
    assert!(matches!(gs.mode, GameMode::Playing));
    assert!(store.entity_exists(gs.bird));
}

#[test]
fn playing_ends_the_frame_the_player_vanishes() {
    // the player overlaps an obstacle this frame, so the collision pass
    // clears the board and the mode flips to game over
    let mut store = Store::new();
    let bird = store.spawn(Components {
        position: Some(Position::new(100 * SCALE, 100 * SCALE)),
        velocity: Some(Velocity::new(0, 0)),
        collider: Some(RectangleCollider::new(10 * SCALE, 10 * SCALE)),
        flap: Some(Flapable::new(BIRD_FLAP, 32)),
        gravity: Some(Gravity),
        die_when_out_of_screen: Some(DieWhenOutOfScreen),
        ..none_comps()
    });
    let obstacle = store.spawn(Components {
        position: Some(Position::new(100 * SCALE, 100 * SCALE)),
        velocity: Some(Velocity::new(0, 0)),
        collider: Some(RectangleCollider::new(10 * SCALE, 10 * SCALE)),
        ..none_comps()
    });
    let mut gs = GameState { mode: GameMode::Playing, bird, latest: obstacle };
    let a = assets();
    let input = FrameInput { start_down: false, keys_down: vec![], dt: 0 };
    game_frame(&mut gs, &mut store, &input, &a, screen());
    assert!(matches!(gs.mode, GameMode::GameOver));
    assert!(!store.entity_exists(bird));
    // a later start input restarts the game from the game-over menu
    let restart_input = FrameInput { start_down: true, keys_down: vec![], dt: 1_600 };
    game_frame(&mut gs, &mut store, &restart_input, &a, screen());
    assert!(matches!(gs.mode, GameMode::Playing));
    assert_eq!(store.ents.len(), 3);
}
