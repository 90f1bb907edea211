//! Spawn controller: the player entity, obstacle pairs, the random
//! track filling and the wholesale restart.
//!
//! All geometry is exact; where a value is drawn at random, the
//! contract states what holds of every draw (its range), and the
//! geometry is stated relative to the drawn values.

use vstd::arithmetic::div_mod::{
    lemma_div_denominator, lemma_div_is_ordered_by_denominator, lemma_div_multiples_vanish,
    lemma_div_pos_is_pos, lemma_fundamental_div_mod, lemma_mod_bound,
};
use vstd::prelude::*;

verus! {

use crate::components::{
    Components, DieWhenOutOfScreen, DrawParams, Flapable, Gravity, Position, RectangleCollider,
    Size, TextureRender, Velocity, size_wf,
};
use crate::fixed::{fp_div, fp_div_spec};
use crate::store::{Ent, Entity, Store};
use crate::systems::{pos_within, positions_within};
use crate::{
    BARRIER_LEFT_SPEED, BIRD_FLAP, GAP_DIV_MAX, GAP_DIV_MIN, PLAYER_START_POS, POS_BOUND,
    RESTART_BARRIER_X, SCALE, SCREEN_LIMIT, TRACK_STEP_MAX, TRACK_STEP_MIN,
};

/// Relies on macroquad::rand::gen_range (quad-rand): for an integer
/// type it returns `low + floor((high - low) * r)` with `r` drawn in
/// `[0, 1)`, so for bounds that are exact in an `f64` the result lies
/// between them. Nothing further is assumed of a drawn value.
#[verifier::external_body]
fn gen_range_i64(low: i64, high: i64) -> (r: i64)
    requires
        0 <= low <= high,
        high <= 4_503_599_627_370_496,
    ensures
        low <= r <= high,
{
    macroquad::rand::gen_range(low, high)
}

/// The component set of a freshly spawned player: position, sprite,
/// collider sized to the sprite, flap control with the fixed impulse,
/// despawn tag, zero velocity and the gravity tag.
pub open spec fn player_ent(
    id: u64,
    pos: Position,
    tex: u64,
    params: DrawParams,
    size: Size,
    key: u32,
) -> Ent {
    Ent {
        id,
        comps: Components {
            position: Some(pos),
            velocity: Some(Velocity { x: 0, y: 0 }),
            collider: Some(RectangleCollider { width: size.width, height: size.height }),
            flap: Some(Flapable { velocity_sub: BIRD_FLAP, key }),
            render: Some(TextureRender { texture: tex, params }),
            gravity: Some(Gravity),
            die_when_out_of_screen: Some(DieWhenOutOfScreen),
        },
    }
}

/// The upper obstacle of a pair: centered above the gap, drawn rotated
/// a half turn, moving left at the fixed speed.
pub open spec fn upper_barrier_ent(
    id: u64,
    x: i64,
    gap_pos: i64,
    gap_radius: i64,
    tex: u64,
    size: Size,
) -> Ent {
    Ent {
        id,
        comps: Components {
            position: Some(
                Position { x, y: (gap_pos - gap_radius - size.height / 2) as i64 },
            ),
            velocity: Some(Velocity { x: (-(BARRIER_LEFT_SPEED as int)) as i64, y: 0 }),
            collider: Some(RectangleCollider { width: size.width, height: size.height }),
            flap: None,
            render: Some(
                TextureRender {
                    texture: tex,
                    params: DrawParams { dest_size: None, rotated_half_turn: true },
                },
            ),
            gravity: None,
            die_when_out_of_screen: None,
        },
    }
}

/// The lower obstacle of a pair: centered below the gap, unrotated,
/// moving left at the fixed speed.
pub open spec fn lower_barrier_ent(
    id: u64,
    x: i64,
    gap_pos: i64,
    gap_radius: i64,
    tex: u64,
    size: Size,
) -> Ent {
    Ent {
        id,
        comps: Components {
            position: Some(
                Position { x, y: (gap_pos + gap_radius + size.height / 2) as i64 },
            ),
            velocity: Some(Velocity { x: (-(BARRIER_LEFT_SPEED as int)) as i64, y: 0 }),
            collider: Some(RectangleCollider { width: size.width, height: size.height }),
            flap: None,
            render: Some(
                TextureRender {
                    texture: tex,
                    params: DrawParams { dest_size: None, rotated_half_turn: false },
                },
            ),
            gravity: None,
            die_when_out_of_screen: None,
        },
    }
}

/// Creates the player entity and returns its identifier.
pub fn spawn_player(
    store: &mut Store,
    pos: Position,
    texture: u64,
    params: DrawParams,
    size: Size,
    key: u32,
) -> (e: Entity)
    requires
        old(store).wf(),
        size_wf(size),
        old(store).next_id < u64::MAX,
    ensures
        final(store).wf(),
        e.id == old(store).next_id,
        final(store).next_id == old(store).next_id + 1,
        final(store).ents@ == old(store).ents@.push(
            player_ent(e.id, pos, texture, params, size, key),
        ),
{
    store.spawn(
        Components {
            position: Some(pos),
            velocity: Some(Velocity::new(0, 0)),
            collider: Some(RectangleCollider::new(size.width, size.height)),
            flap: Some(Flapable::new(BIRD_FLAP, key)),
            render: Some(TextureRender::new(texture, params)),
            gravity: Some(Gravity),
            die_when_out_of_screen: Some(DieWhenOutOfScreen),
        },
    )
}

/// Creates an obstacle pair around the given gap: one obstacle
/// centered `gap_radius + size.height / 2` above the gap's center,
/// one the same distance below, both at `x` and moving left.
pub fn spawn_barrier(
    store: &mut Store,
    x: i64,
    gap_pos: i64,
    gap_radius: i64,
    barrier: u64,
    size: Size,
) -> (pair: (Entity, Entity))
    requires
        old(store).wf(),
        size_wf(size),
        old(store).next_id < u64::MAX - 1,
        -POS_BOUND <= x <= POS_BOUND,
        0 <= gap_radius <= SCREEN_LIMIT,
        0 <= gap_pos <= SCREEN_LIMIT,
    ensures
        final(store).wf(),
        pair.0.id == old(store).next_id,
        pair.1.id == old(store).next_id + 1,
        final(store).next_id == old(store).next_id + 2,
        final(store).ents@ == old(store).ents@.push(
            upper_barrier_ent(pair.0.id, x, gap_pos, gap_radius, barrier, size),
        ).push(lower_barrier_ent(pair.1.id, x, gap_pos, gap_radius, barrier, size)),
{
    let half = (size.height as u64 / 2) as i64;
    let e1 = store.spawn(
        Components {
            position: Some(Position::new(x, gap_pos - gap_radius - half)),
            velocity: Some(Velocity::new(-BARRIER_LEFT_SPEED, 0)),
            collider: Some(RectangleCollider::new(size.width, size.height)),
            flap: None,
            render: Some(
                TextureRender::new(
                    barrier,
                    DrawParams { dest_size: None, rotated_half_turn: true },
                ),
            ),
            gravity: None,
            die_when_out_of_screen: None,
        },
    );
    let e2 = store.spawn(
        Components {
            position: Some(Position::new(x, gap_pos + gap_radius + half)),
            velocity: Some(Velocity::new(-BARRIER_LEFT_SPEED, 0)),
            collider: Some(RectangleCollider::new(size.width, size.height)),
            flap: None,
            render: Some(
                TextureRender::new(
                    barrier,
                    DrawParams { dest_size: None, rotated_half_turn: false },
                ),
            ),
            gravity: None,
            die_when_out_of_screen: None,
        },
    );
    (e1, e2)
}

/// A gap radius computed as the screen height over a divisor of at
/// least five fits twice into the screen height.
pub proof fn lemma_gap_radius_fits(h: int, d: int)
    requires
        0 <= h,
        GAP_DIV_MIN as int <= d,
    ensures
        0 <= fp_div_spec(h, d),
        2 * fp_div_spec(h, d) <= h,
{
    let s = SCALE as int;
    let q = fp_div_spec(h, d);
    assert(h * s >= 0) by (nonlinear_arith)
        requires
            h >= 0,
            s >= 0,
    ;
    lemma_div_pos_is_pos(h * s, d);
    lemma_div_is_ordered_by_denominator(h * s, 5 * s, d);
    lemma_div_denominator(h * s, s, 5);
    assert(s * 5 == 5 * s);
    lemma_div_multiples_vanish(h, s);
    assert(h * s == s * h) by (nonlinear_arith);
    assert((h * s) / s == h);
    assert(q <= h / 5);
    lemma_fundamental_div_mod(h, 5);
    lemma_mod_bound(h, 5);
    lemma_div_pos_is_pos(h, 5);
}

/// What a randomly drawn obstacle pair looks like: the gap radius is
/// the screen height over a drawn divisor in `[GAP_DIV_MIN,
/// GAP_DIV_MAX]`, the gap center is drawn between `gap_radius` and
/// `screen_height - gap_radius`, and the two obstacles stand around
/// that gap at `x`.
pub open spec fn barrier_pair_shape(
    old_s: Seq<Ent>,
    new_s: Seq<Ent>,
    pair: (Entity, Entity),
    x: i64,
    gap_radius: i64,
    gap_pos: i64,
    tex: u64,
    size: Size,
    screen_height: i64,
) -> bool {
    &&& 0 <= gap_radius
    &&& 2 * gap_radius <= screen_height
    &&& gap_radius <= gap_pos <= screen_height - gap_radius
    &&& exists|d: int|
        GAP_DIV_MIN as int <= d <= GAP_DIV_MAX as int && gap_radius as int == fp_div_spec(
            screen_height as int,
            d,
        )
    &&& new_s == old_s.push(upper_barrier_ent(pair.0.id, x, gap_pos, gap_radius, tex, size)).push(
        lower_barrier_ent(pair.1.id, x, gap_pos, gap_radius, tex, size),
    )
}

/// Creates an obstacle pair at `x` with a randomly drawn gap. Every
/// draw yields a pair whose shape `barrier_pair_shape` states.
pub fn spawn_barrier_randomly(
    x: i64,
    store: &mut Store,
    barrier: u64,
    size: Size,
    screen_height: i64,
) -> (pair: (Entity, Entity))
    requires
        old(store).wf(),
        size_wf(size),
        old(store).next_id < u64::MAX - 1,
        -POS_BOUND <= x <= POS_BOUND,
        0 <= screen_height <= SCREEN_LIMIT,
    ensures
        final(store).wf(),
        pair.0.id == old(store).next_id,
        pair.1.id == old(store).next_id + 1,
        final(store).next_id == old(store).next_id + 2,
        exists|gap_radius: i64, gap_pos: i64|
            barrier_pair_shape(
                old(store).ents@,
                final(store).ents@,
                pair,
                x,
                gap_radius,
                gap_pos,
                barrier,
                size,
                screen_height,
            ),
{
    let d = gen_range_i64(GAP_DIV_MIN, GAP_DIV_MAX);
    proof {
        lemma_gap_radius_fits(screen_height as int, d as int);
    }
    let gap_radius = fp_div(screen_height, d);
    let gap_pos = gen_range_i64(gap_radius, screen_height - gap_radius);
    let pr = spawn_barrier(store, x, gap_pos, gap_radius, barrier, size);
    proof {
        let gr = gap_radius;
        let gp = gap_pos;
        assert(barrier_pair_shape(
            old(store).ents@,
            store.ents@,
            pr,
            x,
            gr,
            gp,
            barrier,
            size,
            screen_height,
        ));
    }
    pr
}

/// The successive positions drawn while topping up the track: each
/// advances by a drawn step in `[TRACK_STEP_MIN, TRACK_STEP_MAX]`, all
/// but the last lie before the screen width, and the last reaches it;
/// nothing is drawn exactly when the start already reaches it.
pub open spec fn track_xs_ok(from_x: int, screen_w: int, xs: Seq<int>) -> bool {
    &&& (xs.len() > 0 ==> from_x + TRACK_STEP_MIN <= xs[0] <= from_x + TRACK_STEP_MAX)
    &&& forall|p: int|
        #![trigger xs[p], xs[p - 1]]
        1 <= p < xs.len() ==> xs[p - 1] + TRACK_STEP_MIN <= xs[p] <= xs[p - 1] + TRACK_STEP_MAX
    &&& forall|p: int| 0 <= p < xs.len() - 1 ==> #[trigger] xs[p] < screen_w
    &&& (xs.len() == 0 <==> from_x >= screen_w)
    &&& (xs.len() > 0 ==> xs.last() >= screen_w)
}

/// An obstacle pair with the given gap stands at positions `base` and
/// `base + 1` of the store, at `x`, with identifiers `id0` and
/// `id0 + 1`.
#[verifier::opaque]
pub open spec fn pair_at_with(
    s: Seq<Ent>,
    base: int,
    id0: u64,
    x: int,
    tex: u64,
    size: Size,
    screen_height: i64,
    gap_radius: i64,
    gap_pos: i64,
) -> bool {
    &&& 0 <= gap_radius
    &&& 2 * gap_radius <= screen_height
    &&& gap_radius <= gap_pos <= screen_height - gap_radius
    &&& 0 <= base && base + 1 < s.len()
    &&& s[base] == upper_barrier_ent(id0, x as i64, gap_pos, gap_radius, tex, size)
    &&& s[base + 1] == lower_barrier_ent((id0 + 1) as u64, x as i64, gap_pos, gap_radius, tex, size)
}

/// A randomly drawn obstacle pair stands at positions `base` and
/// `base + 1` of the store, at `x`, with identifiers `id0` and
/// `id0 + 1`.
pub open spec fn pair_at(
    s: Seq<Ent>,
    base: int,
    id0: u64,
    x: int,
    tex: u64,
    size: Size,
    screen_height: i64,
) -> bool {
    exists|gap_radius: i64, gap_pos: i64| #[trigger] pair_at_with(
        s,
        base,
        id0,
        x,
        tex,
        size,
        screen_height,
        gap_radius,
        gap_pos,
    )
}

/// Appending one drawn pair to a well-shaped track keeps it
/// well-shaped.
pub proof fn lemma_track_pairs_extend(
    orig: Seq<Ent>,
    pre: Seq<Ent>,
    new_s: Seq<Ent>,
    onid: u64,
    xs: Seq<int>,
    x: i64,
    pair: (Entity, Entity),
    tex: u64,
    size: Size,
    screen_height: i64,
)
    requires
        track_pairs_ok(orig, pre, onid, xs, tex, size, screen_height),
        exists|gr: i64, gp: i64|
            barrier_pair_shape(pre, new_s, pair, x, gr, gp, tex, size, screen_height),
        pair.0.id as int == onid + 2 * xs.len(),
        pair.1.id as int == onid + 2 * xs.len() + 1,
        onid + 2 * xs.len() + 2 <= u64::MAX,
        positions_within(pre, POS_BOUND as int),
        -POS_BOUND <= x <= POS_BOUND,
        0 <= screen_height <= SCREEN_LIMIT,
        size_wf(size),
    ensures
        track_pairs_ok(orig, new_s, onid, xs.push(x as int), tex, size, screen_height),
        positions_within(new_s, POS_BOUND as int),
{
    reveal(pair_at_with);
    let k = xs.len() as int;
    let xs2 = xs.push(x as int);
    let (gr, gp) = choose|gr: i64, gp: i64|
        barrier_pair_shape(pre, new_s, pair, x, gr, gp, tex, size, screen_height);
    assert(new_s.len() == orig.len() + 2 * xs2.len());
    assert forall|i: int| 0 <= i < orig.len() implies #[trigger] new_s[i] == orig[i] by {
        assert(new_s[i] == pre[i]);
    }
    assert forall|i: int| 0 <= i < new_s.len() implies pos_within(
        #[trigger] new_s[i],
        POS_BOUND as int,
    ) by {
        if i < pre.len() {
            assert(new_s[i] == pre[i]);
            assert(pos_within(pre[i], POS_BOUND as int));
        } else if i == pre.len() {
            assert(new_s[i] == upper_barrier_ent(pair.0.id, x, gp, gr, tex, size));
        } else {
            assert(new_s[i] == lower_barrier_ent(pair.1.id, x, gp, gr, tex, size));
        }
    }
    assert forall|p: int| 0 <= p < xs2.len() implies #[trigger] pair_at(
        new_s,
        orig.len() + 2 * p,
        (onid + 2 * p) as u64,
        xs2[p],
        tex,
        size,
        screen_height,
    ) by {
        if p < k {
            assert(pair_at(
                pre,
                orig.len() + 2 * p,
                (onid + 2 * p) as u64,
                xs[p],
                tex,
                size,
                screen_height,
            ));
            assert(xs2[p] == xs[p]);
            let (g1, g2) = choose|g1: i64, g2: i64| #[trigger] pair_at_with(
                pre,
                orig.len() + 2 * p,
                (onid + 2 * p) as u64,
                xs[p],
                tex,
                size,
                screen_height,
                g1,
                g2,
            );
            assert(new_s[orig.len() + 2 * p] == pre[orig.len() + 2 * p]);
            assert(new_s[orig.len() + 2 * p + 1] == pre[orig.len() + 2 * p + 1]);
            assert(pair_at_with(
                new_s,
                orig.len() + 2 * p,
                (onid + 2 * p) as u64,
                xs2[p],
                tex,
                size,
                screen_height,
                g1,
                g2,
            ));
        } else {
            assert(new_s[pre.len() as int] == upper_barrier_ent(
                pair.0.id,
                x,
                gp,
                gr,
                tex,
                size,
            ));
            assert(pair_at_with(
                new_s,
                orig.len() + 2 * k,
                (onid + 2 * k) as u64,
                xs2[p],
                tex,
                size,
                screen_height,
                gr,
                gp,
            ));
        }
    }
}

/// How the store grew while topping up the track: the old entities are
/// untouched, and behind them stands one randomly drawn obstacle pair
/// per position in `xs`, with consecutive identifiers.
pub open spec fn track_pairs_ok(
    old_s: Seq<Ent>,
    new_s: Seq<Ent>,
    old_next: u64,
    xs: Seq<int>,
    tex: u64,
    size: Size,
    screen_height: i64,
) -> bool {
    &&& new_s.len() == old_s.len() + 2 * xs.len()
    &&& forall|i: int| 0 <= i < old_s.len() ==> #[trigger] new_s[i] == old_s[i]
    &&& forall|p: int|
        0 <= p < xs.len() ==> #[trigger] pair_at(
            new_s,
            old_s.len() + 2 * p,
            (old_next + 2 * p) as u64,
            xs[p],
            tex,
            size,
            screen_height,
        )
}

/// Tops up the obstacle track: starting from `from_x`, repeatedly
/// advances by a drawn step and spawns an obstacle pair there, until
/// the running position reaches the screen width. Returns the second
/// entity of the last pair spawned, if any was.
#[verifier::rlimit(100)]
#[verifier::spinoff_prover]
pub fn ensure_track_filled(
    store: &mut Store,
    from_x: i64,
    barrier: u64,
    size: Size,
    screen_width: i64,
    screen_height: i64,
) -> (latest: Option<Entity>)
    requires
        old(store).wf(),
        size_wf(size),
        -POS_BOUND <= from_x <= POS_BOUND,
        0 <= screen_width <= SCREEN_LIMIT,
        0 <= screen_height <= SCREEN_LIMIT,
        old(store).next_id <= u64::MAX - 1_000_000_000,
        positions_within(old(store).ents@, POS_BOUND as int),
    ensures
        final(store).wf(),
        positions_within(final(store).ents@, POS_BOUND as int),
        exists|xs: Seq<int>|
            {
                &&& track_xs_ok(from_x as int, screen_width as int, xs)
                &&& track_pairs_ok(
                    old(store).ents@,
                    final(store).ents@,
                    old(store).next_id,
                    xs,
                    barrier,
                    size,
                    screen_height,
                )
                &&& final(store).next_id == old(store).next_id + 2 * xs.len()
                &&& (latest is Some <==> xs.len() > 0)
                &&& (latest is Some ==> latest->0.id as int == final(store).next_id - 1)
            },
{
    let ghost orig = store.ents@;
    let ghost onid = old(store).next_id;
    let mut last_x = from_x;
    let mut latest: Option<Entity> = None;
    let ghost mut xs: Seq<int> = Seq::empty();
    while last_x < screen_width
        invariant
            orig == old(store).ents@,
            onid == old(store).next_id,
            store.wf(),
            size_wf(size),
            -POS_BOUND <= from_x <= POS_BOUND,
            0 <= screen_width <= SCREEN_LIMIT,
            0 <= screen_height <= SCREEN_LIMIT,
            onid <= u64::MAX - 1_000_000_000,
            positions_within(store.ents@, POS_BOUND as int),
            from_x <= last_x,
            xs.len() * (TRACK_STEP_MIN as int) <= last_x - from_x,
            store.next_id == onid + 2 * xs.len(),
            xs.len() == 0 ==> last_x == from_x,
            xs.len() > 0 ==> xs.last() == last_x && from_x < screen_width && last_x < screen_width
                + TRACK_STEP_MAX,
            xs.len() > 0 ==> from_x + TRACK_STEP_MIN <= xs[0] <= from_x + TRACK_STEP_MAX,
            forall|p: int|
                #![trigger xs[p], xs[p - 1]]
                1 <= p < xs.len() ==> xs[p - 1] + TRACK_STEP_MIN <= xs[p] <= xs[p - 1]
                    + TRACK_STEP_MAX,
            forall|p: int| 0 <= p < xs.len() - 1 ==> #[trigger] xs[p] < screen_width,
            track_pairs_ok(orig, store.ents@, onid, xs, barrier, size, screen_height),
            latest is Some <==> xs.len() > 0,
            latest is Some ==> latest->0.id as int == store.next_id - 1,
        decreases screen_width + TRACK_STEP_MAX - last_x,
    {
        let step = gen_range_i64(TRACK_STEP_MIN, TRACK_STEP_MAX);
        proof {
            assert(xs.len() * (TRACK_STEP_MIN as int) <= (SCREEN_LIMIT as int) + (
            POS_BOUND as int));
            assert(2 * xs.len() < 1_000_000_000int);
        }
        let ghost lx0 = last_x;
        let ghost xs0 = xs;
        last_x = last_x + step;
        let ghost pre = store.ents@;
        let pr = spawn_barrier_randomly(last_x, store, barrier, size, screen_height);
        latest = Some(pr.1);
        proof {
            lemma_track_pairs_extend(
                orig,
                pre,
                store.ents@,
                onid,
                xs,
                last_x,
                pr,
                barrier,
                size,
                screen_height,
            );
            let k = xs0.len() as int;
            xs = xs0.push(last_x as int);
            assert(xs[k] == last_x as int);
            assert forall|p: int|
                #![trigger xs[p], xs[p - 1]]
                1 <= p < xs.len() implies xs[p - 1] + TRACK_STEP_MIN <= xs[p] <= xs[p - 1]
                + TRACK_STEP_MAX by {
                if p < k {
                    assert(xs[p] == xs0[p]);
                    assert(xs[p - 1] == xs0[p - 1]);
                } else {
                    assert(xs[p] == last_x as int);
                    if k > 0 {
                        assert(xs[p - 1] == xs0[k - 1]);
                        assert(xs0[k - 1] == lx0 as int);
                    }
                }
            }
        }
    }
    proof {
        assert(track_xs_ok(from_x as int, screen_width as int, xs));
        assert(track_pairs_ok(orig, store.ents@, onid, xs, barrier, size, screen_height));
    }
    latest
}

/// What a reset store holds: exactly the player at the fixed start
/// position, then an obstacle pair with the given gap at the fixed
/// restart position, with consecutive identifiers.
pub open spec fn restart_shape(
    s: Seq<Ent>,
    r: (Entity, Entity),
    bird_tex: u64,
    bird_params: DrawParams,
    bird_size: Size,
    barrier_tex: u64,
    barrier_size: Size,
    flap_key: u32,
    screen_height: i64,
    gap_radius: i64,
    gap_pos: i64,
) -> bool {
    &&& 0 <= gap_radius
    &&& 2 * gap_radius <= screen_height
    &&& gap_radius <= gap_pos <= screen_height - gap_radius
    &&& s == seq![
        player_ent(
            r.0.id,
            Position { x: PLAYER_START_POS, y: PLAYER_START_POS },
            bird_tex,
            bird_params,
            bird_size,
            flap_key,
        ),
    ].push(
        upper_barrier_ent(
            (r.0.id + 1) as u64,
            RESTART_BARRIER_X,
            gap_pos,
            gap_radius,
            barrier_tex,
            barrier_size,
        ),
    ).push(
        lower_barrier_ent(
            r.1.id,
            RESTART_BARRIER_X,
            gap_pos,
            gap_radius,
            barrier_tex,
            barrier_size,
        ),
    )
}

/// Resets the store wholesale: clears it, spawns the player at the
/// fixed start position and one randomly drawn obstacle pair ahead of
/// it. Returns the player and the second obstacle of the pair.
pub fn restart(
    store: &mut Store,
    bird_tex: u64,
    bird_params: DrawParams,
    bird_size: Size,
    barrier_tex: u64,
    barrier_size: Size,
    flap_key: u32,
    screen_height: i64,
) -> (r: (Entity, Entity))
    requires
        old(store).wf(),
        size_wf(bird_size),
        size_wf(barrier_size),
        0 <= screen_height <= SCREEN_LIMIT,
        old(store).next_id <= u64::MAX - 3,
    ensures
        final(store).wf(),
        positions_within(final(store).ents@, POS_BOUND as int),
        r.0.id == old(store).next_id,
        r.1.id == old(store).next_id + 2,
        final(store).next_id == old(store).next_id + 3,
        exists|gap_radius: i64, gap_pos: i64| #[trigger] restart_shape(
            final(store).ents@,
            r,
            bird_tex,
            bird_params,
            bird_size,
            barrier_tex,
            barrier_size,
            flap_key,
            screen_height,
            gap_radius,
            gap_pos,
        ),
{
    store.clear();
    let bird = spawn_player(
        store,
        Position::new(PLAYER_START_POS, PLAYER_START_POS),
        bird_tex,
        bird_params,
        bird_size,
        flap_key,
    );
    let ghost pre = store.ents@;
    let pr = spawn_barrier_randomly(RESTART_BARRIER_X, store, barrier_tex, barrier_size, screen_height);
    proof {
        let (gr, gp) = choose|gr: i64, gp: i64|
            barrier_pair_shape(
                pre,
                store.ents@,
                pr,
                RESTART_BARRIER_X,
                gr,
                gp,
                barrier_tex,
                barrier_size,
                screen_height,
            );
        assert(pre =~= seq![
            player_ent(
                bird.id,
                Position { x: PLAYER_START_POS, y: PLAYER_START_POS },
                bird_tex,
                bird_params,
                bird_size,
                flap_key,
            ),
        ]);
        assert(restart_shape(
            store.ents@,
            (bird, pr.1),
            bird_tex,
            bird_params,
            bird_size,
            barrier_tex,
            barrier_size,
            flap_key,
            screen_height,
            gr,
            gp,
        ));
        assert forall|i: int| 0 <= i < store.ents@.len() implies pos_within(
            #[trigger] store.ents@[i],
            POS_BOUND as int,
        ) by {
            if i == 1 {
                assert(store.ents@[i] == upper_barrier_ent(
                    (bird.id + 1) as u64,
                    RESTART_BARRIER_X,
                    gp,
                    gr,
                    barrier_tex,
                    barrier_size,
                ));
            } else if i == 2 {
                assert(store.ents@[i] == lower_barrier_ent(
                    pr.1.id,
                    RESTART_BARRIER_X,
                    gp,
                    gr,
                    barrier_tex,
                    barrier_size,
                ));
            }
        }
    }
    (bird, pr.1)
}

} // verus!
