//! Game-flow controller: menu, playing and game-over states.
//!
//! In the menus only the start input is read; a start performs the
//! wholesale reset. While playing, one frame tops up the obstacle
//! track ahead of the last pair, runs the scheduler pass, and moves to
//! the game-over state exactly when the player entity is gone from the
//! store afterwards.

use vstd::prelude::*;

verus! {

use crate::components::{DrawParams, Size, size_wf};
use crate::spawn::{ensure_track_filled, pair_at_with, restart, restart_shape, track_pairs_ok, track_xs_ok};
use crate::store::{Ent, Entity, Store, has_live, lemma_filter_contains, unique_ids};
use crate::systems::{
    collide_apply, collision_exists, flap_map, flap_step, frame_spec, grav_map, gravity_step,
    has_box, lifecycle_apply, out_of_bounds, pos_map, pos_step, positions_within, run_frame,
};
use crate::{DT_LIMIT, POS_BOUND, SCREEN_LIMIT};

/// The three game-flow states.
#[derive(Clone, Copy, PartialEq, Eq, Structural)]
pub enum GameMode {
    MainMenu,
    Playing,
    GameOver,
}

/// The controller's state: the mode, the player entity and the last
/// obstacle spawned (the track is topped up ahead of it).
pub struct GameState {
    pub mode: GameMode,
    pub bird: Entity,
    pub latest: Entity,
}

/// One frame's inputs, polled outside the library: whether the start
/// key is down, the keys that are down, and the frame delta in ticks
/// of a second.
pub struct FrameInput {
    pub start_down: bool,
    pub keys_down: Vec<u32>,
    pub dt: i64,
}

/// Screen size in ticks, supplied by the display each frame.
#[derive(Clone, Copy)]
pub struct Screen {
    pub width: i64,
    pub height: i64,
}

/// The fixed texture handles and sprite sizes, and the flap/start key.
pub struct Assets {
    pub bird_texture: u64,
    pub bird_params: DrawParams,
    pub bird_size: Size,
    pub bird_key: u32,
    pub barrier_texture: u64,
    pub barrier_size: Size,
}

/// The sprite sizes respect the machine bounds.
pub open spec fn assets_wf(a: Assets) -> bool {
    size_wf(a.bird_size) && size_wf(a.barrier_size)
}

/// The stored entity is a live player record: the identifier matches
/// and it carries a position and a collider.
pub open spec fn bird_rec_ok(r: Ent, id: u64) -> bool {
    r.id == id && r.comps.position is Some && r.comps.collider is Some
}

/// The stored entity is a live last-obstacle record: the identifier
/// matches, it has a position and no despawn tag.
pub open spec fn latest_rec_ok(r: Ent, id: u64) -> bool {
    r.id == id && r.comps.position is Some && r.comps.die_when_out_of_screen is None
}

/// Controller invariant: while playing, the player and the last
/// obstacle are live in the store with the components a frame needs.
pub open spec fn game_wf(gs: GameState, store: Store) -> bool {
    gs.mode is Playing ==> {
        &&& exists|i: int|
            0 <= i < store.ents@.len() && #[trigger] bird_rec_ok(store.ents@[i], gs.bird.id)
        &&& exists|i: int|
            0 <= i < store.ents@.len() && #[trigger] latest_rec_ok(store.ents@[i], gs.latest.id)
    }
}

/// After one scheduler pass in which the player survived, the player
/// record keeps its position and collider, and the last obstacle is
/// still live with its position and without a despawn tag.
proof fn lemma_frame_keeps_recs(
    mid: Seq<Ent>,
    dt: i64,
    keys: Seq<u32>,
    h: i64,
    bird_id: u64,
    latest_id: u64,
)
    requires
        unique_ids(mid),
        exists|i: int| 0 <= i < mid.len() && #[trigger] bird_rec_ok(mid[i], bird_id),
        exists|i: int| 0 <= i < mid.len() && #[trigger] latest_rec_ok(mid[i], latest_id),
        has_live(frame_spec(mid, dt, keys, h), bird_id),
    ensures
        exists|i: int|
            0 <= i < frame_spec(mid, dt, keys, h).len() && #[trigger] bird_rec_ok(
                frame_spec(mid, dt, keys, h)[i],
                bird_id,
            ),
        exists|i: int|
            0 <= i < frame_spec(mid, dt, keys, h).len() && #[trigger] latest_rec_ok(
                frame_spec(mid, dt, keys, h)[i],
                latest_id,
            ),
{
    let s1 = grav_map(mid, dt);
    let s2 = pos_map(s1, dt);
    let ib = choose|i: int| 0 <= i < mid.len() && bird_rec_ok(mid[i], bird_id);
    let il = choose|i: int| 0 <= i < mid.len() && latest_rec_ok(mid[i], latest_id);
    assert(s2[ib] == pos_step(gravity_step(mid[ib], dt), dt));
    assert(bird_rec_ok(s2[ib], bird_id));
    assert(s2[il] == pos_step(gravity_step(mid[il], dt), dt));
    assert(latest_rec_ok(s2[il], latest_id));
    assert(forall|i: int| 0 <= i < mid.len() ==> #[trigger] s2[i].id == mid[i].id);
    assert(unique_ids(s2));
    let s3 = collide_apply(s2);
    let s4 = flap_map(s3, keys);
    let fin = lifecycle_apply(s4, h);
    lemma_filter_contains(s4, |r: Ent| !out_of_bounds(r, h));
    if collision_exists(s2) {
        lemma_filter_contains(s2, |r: Ent| !has_box(r));
        let j = choose|j: int| 0 <= j < fin.len() && fin[j].id == bird_id;
        assert(fin.contains(fin[j]));
        assert(s4.contains(fin[j]));
        let j4 = choose|k: int| 0 <= k < s4.len() && s4[k] == fin[j];
        assert(s4[j4] == flap_step(s3[j4], keys));
        assert(s3[j4].id == bird_id);
        s2.lemma_filter_pred(|r: Ent| !has_box(r), j4);
        assert(!has_box(s3[j4]));
        assert(s3.contains(s3[j4]));
        assert(s2.contains(s3[j4]));
        let j2 = choose|k: int| 0 <= k < s2.len() && s2[k] == s3[j4];
        assert(s2[j2].id == bird_id);
        assert(j2 == ib);
        assert(false);
    } else {
        assert(s3 == s2);
        assert(s4[ib] == flap_step(s2[ib], keys));
        assert(bird_rec_ok(s4[ib], bird_id));
        assert(s4[il] == flap_step(s2[il], keys));
        assert(latest_rec_ok(s4[il], latest_id));
        assert(!out_of_bounds(s4[il], h));
        s4.lemma_filter_contains(|r: Ent| !out_of_bounds(r, h), il);
        assert(fin.contains(s4[il]));
        let jl = choose|k: int| 0 <= k < fin.len() && fin[k] == s4[il];
        assert(latest_rec_ok(fin[jl], latest_id));
        assert(forall|i: int| 0 <= i < s2.len() ==> #[trigger] s4[i].id == s2[i].id);
        assert(unique_ids(s4));
        let j = choose|j: int| 0 <= j < fin.len() && fin[j].id == bird_id;
        assert(fin.contains(fin[j]));
        assert(s4.contains(fin[j]));
        let k4 = choose|k: int| 0 <= k < s4.len() && s4[k] == fin[j];
        assert(s4[k4].id == bird_id);
        assert(k4 == ib);
        assert(bird_rec_ok(fin[j], bird_id));
    }
}

/// One frame of the game-flow controller.
///
/// In the menu states nothing happens without the start input; with
/// it, the store is reset to a fresh player and one obstacle pair and
/// the mode becomes `Playing`. In `Playing`, the obstacle track is
/// topped up ahead of the last pair, the scheduler pass runs, and the
/// mode becomes `GameOver` exactly when the player entity is no longer
/// in the store.
pub fn game_frame(
    gs: &mut GameState,
    store: &mut Store,
    input: &FrameInput,
    assets: &Assets,
    screen: Screen,
)
    requires
        old(store).wf(),
        game_wf(*old(gs), *old(store)),
        assets_wf(*assets),
        0 <= input.dt <= DT_LIMIT,
        0 <= screen.width <= SCREEN_LIMIT,
        0 <= screen.height <= SCREEN_LIMIT,
        positions_within(old(store).ents@, POS_BOUND as int),
        old(store).next_id <= u64::MAX - 2_000_000_000,
    ensures
        final(store).wf(),
        game_wf(*final(gs), *final(store)),
        positions_within(final(store).ents@, POS_BOUND as int + crate::POS_STEP_MAX as int),
        ((old(gs).mode is MainMenu || old(gs).mode is GameOver) && !input.start_down)
            ==> *final(gs) == *old(gs) && *final(store) == *old(store),
        ((old(gs).mode is MainMenu || old(gs).mode is GameOver) && input.start_down) ==> {
            &&& final(gs).mode is Playing
            &&& final(gs).bird.id == old(store).next_id
            &&& final(gs).latest.id == old(store).next_id + 2
            &&& final(store).next_id == old(store).next_id + 3
            &&& exists|gap_radius: i64, gap_pos: i64| #[trigger] restart_shape(
                final(store).ents@,
                (final(gs).bird, final(gs).latest),
                assets.bird_texture,
                assets.bird_params,
                assets.bird_size,
                assets.barrier_texture,
                assets.barrier_size,
                assets.bird_key,
                screen.height,
                gap_radius,
                gap_pos,
            )
        },
        old(gs).mode is Playing ==> {
            &&& exists|mid: Seq<Ent>, xs: Seq<int>, fx: int|
                {
                    &&& exists|i: int|
                        0 <= i < old(store).ents@.len() && #[trigger] old(store).ents@[i].id == old(
                            gs,
                        ).latest.id && fx == old(store).ents@[i].comps.position->0.x
                    &&& track_xs_ok(fx, screen.width as int, xs)
                    &&& track_pairs_ok(
                        old(store).ents@,
                        mid,
                        old(store).next_id,
                        xs,
                        assets.barrier_texture,
                        assets.barrier_size,
                        screen.height,
                    )
                    &&& final(store).ents@ == frame_spec(
                        mid,
                        input.dt,
                        input.keys_down@,
                        screen.height,
                    )
                }
            &&& final(gs).bird == old(gs).bird
            &&& (final(gs).mode is Playing <==> has_live(final(store).ents@, old(gs).bird.id))
            &&& (final(gs).mode is GameOver <==> !has_live(final(store).ents@, old(gs).bird.id))
        },
{
    match gs.mode {
        GameMode::MainMenu | GameMode::GameOver => {
            if input.start_down {
                let r = restart(
                    store,
                    assets.bird_texture,
                    assets.bird_params,
                    assets.bird_size,
                    assets.barrier_texture,
                    assets.barrier_size,
                    assets.bird_key,
                    screen.height,
                );
                gs.bird = r.0;
                gs.latest = r.1;
                gs.mode = GameMode::Playing;
                proof {
                    let (gr, gp) = choose|gr: i64, gp: i64| #[trigger] restart_shape(
                        store.ents@,
                        r,
                        assets.bird_texture,
                        assets.bird_params,
                        assets.bird_size,
                        assets.barrier_texture,
                        assets.barrier_size,
                        assets.bird_key,
                        screen.height,
                        gr,
                        gp,
                    );
                    assert(r == (r.0, r.1));
                    assert(restart_shape(
                        store.ents@,
                        (gs.bird, gs.latest),
                        assets.bird_texture,
                        assets.bird_params,
                        assets.bird_size,
                        assets.barrier_texture,
                        assets.barrier_size,
                        assets.bird_key,
                        screen.height,
                        gr,
                        gp,
                    ));
                    assert(bird_rec_ok(store.ents@[0], r.0.id));
                    assert(latest_rec_ok(store.ents@[2], r.1.id));
                }
            }
            proof {
                assert forall|i: int| 0 <= i < store.ents@.len() implies crate::systems::pos_within(
                    #[trigger] store.ents@[i],
                    POS_BOUND as int + crate::POS_STEP_MAX as int,
                ) by {
                    assert(crate::systems::pos_within(store.ents@[i], POS_BOUND as int));
                }
            }
        },
        GameMode::Playing => {
            proof {
                let i1 = choose|i: int|
                    0 <= i < store.ents@.len() && #[trigger] latest_rec_ok(
                        store.ents@[i],
                        gs.latest.id,
                    );
                assert(store.ents@[i1].id == gs.latest.id);
            }
            let c = store.get(gs.latest);
            proof {
                let i1 = choose|i: int|
                    0 <= i < store.ents@.len() && #[trigger] latest_rec_ok(
                        store.ents@[i],
                        gs.latest.id,
                    );
                let i2 = choose|i: int|
                    0 <= i < store.ents@.len() && store.ents@[i].id == gs.latest.id && c->0
                        == store.ents@[i].comps;
                assert(i1 == i2);
                assert(c->0.position is Some);
                assert(crate::systems::pos_within(store.ents@[i1], POS_BOUND as int));
            }
            let lastx = c.unwrap().position.unwrap().x;
            let ghost s0 = store.ents@;
            let ghost onid = store.next_id;
            let ghost old_latest = gs.latest;
            let filled = ensure_track_filled(
                store,
                lastx,
                assets.barrier_texture,
                assets.barrier_size,
                screen.width,
                screen.height,
            );
            match filled {
                Some(l) => {
                    gs.latest = l;
                },
                None => {},
            }
            let ghost mid = store.ents@;
            let ghost xs = choose|xs: Seq<int>|
                {
                    &&& track_xs_ok(lastx as int, screen.width as int, xs)
                    &&& track_pairs_ok(
                        s0,
                        mid,
                        onid,
                        xs,
                        assets.barrier_texture,
                        assets.barrier_size,
                        screen.height,
                    )
                    &&& store.next_id == onid + 2 * xs.len()
                    &&& (filled is Some <==> xs.len() > 0)
                    &&& (filled is Some ==> filled->0.id as int == store.next_id - 1)
                };
            proof {
                reveal(pair_at_with);
                let ib0 = choose|i: int|
                    0 <= i < s0.len() && #[trigger] bird_rec_ok(s0[i], gs.bird.id);
                assert(mid[ib0] == s0[ib0]);
                assert(bird_rec_ok(mid[ib0], gs.bird.id));
                if xs.len() > 0 {
                    let k = xs.len() as int;
                    assert(crate::spawn::pair_at(
                        mid,
                        s0.len() as int + 2 * (k - 1),
                        (onid + 2 * (k - 1)) as u64,
                        xs[k - 1],
                        assets.barrier_texture,
                        assets.barrier_size,
                        screen.height,
                    ));
                    let (g1, g2) = choose|g1: i64, g2: i64| #[trigger] pair_at_with(
                        mid,
                        s0.len() as int + 2 * (k - 1),
                        (onid + 2 * (k - 1)) as u64,
                        xs[k - 1],
                        assets.barrier_texture,
                        assets.barrier_size,
                        screen.height,
                        g1,
                        g2,
                    );
                    assert(latest_rec_ok(mid[s0.len() + 2 * (k - 1) + 1], gs.latest.id));
                } else {
                    let il0 = choose|i: int|
                        0 <= i < s0.len() && #[trigger] latest_rec_ok(s0[i], old_latest.id);
                    assert(mid[il0] == s0[il0]);
                    assert(latest_rec_ok(mid[il0], gs.latest.id));
                }
            }
            run_frame(store, input.dt, &input.keys_down, screen.height);
            if store.entity_exists(gs.bird) {
                proof {
                    lemma_frame_keeps_recs(
                        mid,
                        input.dt,
                        input.keys_down@,
                        screen.height,
                        gs.bird.id,
                        gs.latest.id,
                    );
                }
            } else {
                gs.mode = GameMode::GameOver;
            }
        },
    }
}

} // verus!
