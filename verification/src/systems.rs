//! Per-frame systems and the fixed-order scheduler.
//!
//! Each system is specified pointwise by a step function on one stored
//! entity, or by the identifier list it queues; `run_frame` composes
//! them in the fixed order gravity, position integration, collision,
//! flap input, lifecycle despawn, flushing the command buffer after
//! the collision scan and after the lifecycle scan.

use vstd::math::abs;
use vstd::prelude::*;

verus! {

use crate::components::{Components, Position, TextureRender, Velocity, components_wf};
use crate::fixed::{
    clamp_i64, clamp_spec, fp_mul, fp_mul_spec, lemma_fp_mul_bounded, lemma_mul_bounds,
};
use crate::store::{
    CommandBuffer, Ent, Entity, Store, has_live, ids_where, lemma_filter_agree,
    lemma_filter_all_true, lemma_filter_contains, lemma_ids_where_contains, lemma_ids_where_step,
    lemma_take_push, unique_ids,
};
use crate::{DT_LIMIT, G, MAX_SPEED, POS_BOUND, POS_STEP_MAX, SCALE, SCREEN_LIMIT, VELOCITY_EPS};

/// A coordinate of the entity's position stays within the bound.
pub open spec fn pos_within(r: Ent, b: int) -> bool {
    r.comps.position is Some ==> -b <= r.comps.position->0.x <= b && -b
        <= r.comps.position->0.y <= b
}

/// Every stored position stays within the bound.
pub open spec fn positions_within(s: Seq<Ent>, b: int) -> bool {
    forall|i: int| 0 <= i < s.len() ==> pos_within(#[trigger] s[i], b)
}

/// One gravity-integration step: an entity with the gravity tag and a
/// velocity gains `G * dt` of downward speed, clamped to the speed
/// bound; every other entity is untouched.
pub open spec fn gravity_step(r: Ent, dt: i64) -> Ent {
    if r.comps.gravity is Some && r.comps.velocity is Some {
        let v = r.comps.velocity->0;
        let vy = clamp_spec(
            v.y + fp_mul_spec(G as int, dt as int),
            -(MAX_SPEED as int),
            MAX_SPEED as int,
        );
        Ent { comps: Components { velocity: Some(Velocity { x: v.x, y: vy as i64 }), ..r.comps }, ..r }
    } else {
        r
    }
}

/// The gravity pass, entity by entity.
pub open spec fn grav_map(s: Seq<Ent>, dt: i64) -> Seq<Ent> {
    Seq::new(s.len(), |i: int| gravity_step(s[i], dt))
}

/// One position-integration step: the position advances by
/// `velocity * dt`; when the vertical speed is beyond the threshold the
/// vertical coordinate is floored at zero.
pub open spec fn pos_step(r: Ent, dt: i64) -> Ent {
    if r.comps.position is Some && r.comps.velocity is Some {
        let p = r.comps.position->0;
        let v = r.comps.velocity->0;
        let x2 = p.x + fp_mul_spec(v.x as int, dt as int);
        let y1 = p.y + fp_mul_spec(v.y as int, dt as int);
        let y2 = if abs(v.y as int) > VELOCITY_EPS as int && y1 < 0 {
            0
        } else {
            y1
        };
        Ent {
            comps: Components { position: Some(Position { x: x2 as i64, y: y2 as i64 }), ..r.comps },
            ..r
        }
    } else {
        r
    }
}

/// The position-integration pass, entity by entity.
pub open spec fn pos_map(s: Seq<Ent>, dt: i64) -> Seq<Ent> {
    Seq::new(s.len(), |i: int| pos_step(s[i], dt))
}

/// One flap step: an entity whose flap trigger is among the keys that
/// are down loses its impulse of vertical speed, clamped to the speed
/// bound.
pub open spec fn flap_step(r: Ent, keys: Seq<u32>) -> Ent {
    if r.comps.velocity is Some && r.comps.flap is Some && keys.contains(r.comps.flap->0.key) {
        let v = r.comps.velocity->0;
        let vy = clamp_spec(
            v.y - r.comps.flap->0.velocity_sub,
            -(MAX_SPEED as int),
            MAX_SPEED as int,
        );
        Ent { comps: Components { velocity: Some(Velocity { x: v.x, y: vy as i64 }), ..r.comps }, ..r }
    } else {
        r
    }
}

/// The flap pass, entity by entity.
pub open spec fn flap_map(s: Seq<Ent>, keys: Seq<u32>) -> Seq<Ent> {
    Seq::new(s.len(), |i: int| flap_step(s[i], keys))
}

/// The entity takes part in collision detection.
pub open spec fn has_box(r: Ent) -> bool {
    r.comps.position is Some && r.comps.collider is Some
}

/// Left edge of the entity's collision rectangle.
pub open spec fn rect_l(r: Ent) -> int {
    r.comps.position->0.x - r.comps.collider->0.width / 2
}

/// Right edge of the entity's collision rectangle.
pub open spec fn rect_r(r: Ent) -> int {
    rect_l(r) + r.comps.collider->0.width
}

/// Top edge of the entity's collision rectangle.
pub open spec fn rect_t(r: Ent) -> int {
    r.comps.position->0.y - r.comps.collider->0.height / 2
}

/// Bottom edge of the entity's collision rectangle.
pub open spec fn rect_b(r: Ent) -> int {
    rect_t(r) + r.comps.collider->0.height
}

/// The two collision rectangles overlap, edges included.
pub open spec fn rects_overlap(a: Ent, b: Ent) -> bool
    recommends
        has_box(a),
        has_box(b),
{
    rect_l(a) <= rect_r(b) && rect_r(a) >= rect_l(b) && rect_t(a) <= rect_b(b) && rect_b(a)
        >= rect_t(b)
}

/// Two distinct stored entities with boxes overlap.
pub open spec fn collision_exists(s: Seq<Ent>) -> bool {
    exists|i: int, j: int|
        0 <= i < s.len() && 0 <= j < s.len() && i != j && has_box(s[i]) && has_box(s[j])
            && rects_overlap(s[i], s[j])
}

/// What the collision pass leaves: on any overlap, every entity with a
/// box goes; otherwise nothing changes.
pub open spec fn collide_apply(s: Seq<Ent>) -> Seq<Ent> {
    if collision_exists(s) {
        s.filter(|r: Ent| !has_box(r))
    } else {
        s
    }
}

/// The entity is despawned by the lifecycle pass: it has a position, a
/// collider and the despawn tag, and its center is past the left edge
/// by over half its width, or past the bottom edge by over half its
/// height. The right and top edges are deliberately not checked.
pub open spec fn out_of_bounds(r: Ent, screen_height: i64) -> bool {
    r.comps.position is Some && r.comps.collider is Some && r.comps.die_when_out_of_screen is Some
        && (r.comps.position->0.x < -(r.comps.collider->0.width / 2) || r.comps.position->0.y
        > screen_height + r.comps.collider->0.height / 2)
}

/// What the lifecycle pass leaves.
pub open spec fn lifecycle_apply(s: Seq<Ent>, screen_height: i64) -> Seq<Ent> {
    s.filter(|r: Ent| !out_of_bounds(r, screen_height))
}

/// The lifecycle pass checks only the left and bottom thresholds: an
/// entity that has not crossed them is kept, however far right of the
/// screen width or above the top it stands.
pub proof fn lemma_lifecycle_ignores_right_and_top(s: Seq<Ent>, i: int, screen_height: i64)
    requires
        0 <= i < s.len(),
        s[i].comps.position is Some,
        s[i].comps.collider is Some,
        s[i].comps.position->0.x >= -(s[i].comps.collider->0.width / 2),
        s[i].comps.position->0.y <= screen_height + s[i].comps.collider->0.height / 2,
    ensures
        !out_of_bounds(s[i], screen_height),
        lifecycle_apply(s, screen_height).contains(s[i]),
{
    s.lemma_filter_contains(|r: Ent| !out_of_bounds(r, screen_height), i);
}

/// What one whole scheduler pass leaves of the store.
pub open spec fn frame_spec(s: Seq<Ent>, dt: i64, keys: Seq<u32>, screen_height: i64) -> Seq<Ent> {
    lifecycle_apply(flap_map(collide_apply(pos_map(grav_map(s, dt), dt)), keys), screen_height)
}

/// Gravity integration: `velocity.y += G * dt`, clamped to
/// `[-MAX_SPEED, MAX_SPEED]`, for every entity with the gravity tag and
/// a velocity.
pub fn update_velocity_by_gravity(store: &mut Store, dt: i64)
    requires
        old(store).wf(),
        0 <= dt <= DT_LIMIT,
    ensures
        final(store).wf(),
        final(store).next_id == old(store).next_id,
        final(store).ents@ == grav_map(old(store).ents@, dt),
{
    let ghost orig = store.ents@;
    let n = store.ents.len();
    let mut i: usize = 0;
    while i < n
        invariant
            0 <= i <= n,
            orig == old(store).ents@,
            n == store.ents@.len(),
            store.ents@.len() == orig.len(),
            store.next_id == old(store).next_id,
            store.wf(),
            0 <= dt <= DT_LIMIT,
            forall|k: int| 0 <= k < i ==> store.ents@[k] == gravity_step(orig[k], dt),
            forall|k: int| i <= k < n ==> store.ents@[k] == orig[k],
        decreases n - i,
    {
        let r = store.ents[i];
        if r.comps.gravity.is_some() && r.comps.velocity.is_some() {
            let v = r.comps.velocity.unwrap();
            proof {
                lemma_mul_bounds(G as int, dt as int, G as int, DT_LIMIT as int);
                lemma_fp_mul_bounded(G as int, dt as int, G as int * DT_LIMIT as int);
            }
            let dv = fp_mul(G, dt);
            let vy = clamp_i64(v.y + dv, -MAX_SPEED, MAX_SPEED);
            store.ents.set(
                i,
                Ent { comps: Components { velocity: Some(Velocity { x: v.x, y: vy }), ..r.comps }, ..r },
            );
        }
        i = i + 1;
    }
    proof {
        assert(store.ents@ =~= grav_map(orig, dt));
    }
}

/// Position integration: `position += velocity * dt` for every entity
/// with both; when the vertical speed is beyond the threshold, the
/// vertical coordinate is floored at zero. No horizontal clamp exists.
pub fn update_position_by_velocity(store: &mut Store, dt: i64)
    requires
        old(store).wf(),
        0 <= dt <= DT_LIMIT,
        positions_within(old(store).ents@, POS_BOUND as int),
    ensures
        final(store).wf(),
        final(store).next_id == old(store).next_id,
        final(store).ents@ == pos_map(old(store).ents@, dt),
        positions_within(final(store).ents@, POS_BOUND as int + POS_STEP_MAX as int),
{
    let ghost orig = store.ents@;
    let n = store.ents.len();
    let mut i: usize = 0;
    while i < n
        invariant
            0 <= i <= n,
            orig == old(store).ents@,
            n == store.ents@.len(),
            store.ents@.len() == orig.len(),
            store.next_id == old(store).next_id,
            store.wf(),
            0 <= dt <= DT_LIMIT,
            positions_within(orig, POS_BOUND as int),
            forall|k: int| 0 <= k < i ==> store.ents@[k] == pos_step(orig[k], dt),
            forall|k: int|
                0 <= k < i ==> pos_within(
                    #[trigger] store.ents@[k],
                    POS_BOUND as int + POS_STEP_MAX as int,
                ),
            forall|k: int| i <= k < n ==> store.ents@[k] == orig[k],
        decreases n - i,
    {
        let r = store.ents[i];
        if r.comps.position.is_some() && r.comps.velocity.is_some() {
            let p = r.comps.position.unwrap();
            let v = r.comps.velocity.unwrap();
            proof {
                assert(pos_within(orig[i as int], POS_BOUND as int));
                lemma_mul_bounds(v.x as int, dt as int, MAX_SPEED as int, DT_LIMIT as int);
                lemma_fp_mul_bounded(v.x as int, dt as int, MAX_SPEED as int * DT_LIMIT as int);
                lemma_mul_bounds(v.y as int, dt as int, MAX_SPEED as int, DT_LIMIT as int);
                lemma_fp_mul_bounded(v.y as int, dt as int, MAX_SPEED as int * DT_LIMIT as int);
                assert((MAX_SPEED as int * DT_LIMIT as int) / (SCALE as int)
                    == POS_STEP_MAX as int);
            }
            let dx = fp_mul(v.x, dt);
            let dy = fp_mul(v.y, dt);
            let x2 = p.x + dx;
            let mut y2 = p.y + dy;
            let ay = if v.y < 0 {
                -v.y
            } else {
                v.y
            };
            if ay > VELOCITY_EPS && y2 < 0 {
                y2 = 0;
            }
            store.ents.set(
                i,
                Ent {
                    comps: Components { position: Some(Position { x: x2, y: y2 }), ..r.comps },
                    ..r
                },
            );
        }
        i = i + 1;
    }
    proof {
        assert(store.ents@ =~= pos_map(orig, dt));
    }
}

/// Whether the collision rectangles of two entities overlap.
fn boxes_overlap(a: Ent, b: Ent) -> (res: bool)
    requires
        has_box(a),
        has_box(b),
        components_wf(a.comps),
        components_wf(b.comps),
        pos_within(a, POS_BOUND as int + POS_STEP_MAX as int),
        pos_within(b, POS_BOUND as int + POS_STEP_MAX as int),
    ensures
        res == rects_overlap(a, b),
{
    let pa = a.comps.position.unwrap();
    let ca = a.comps.collider.unwrap();
    let pb = b.comps.position.unwrap();
    let cb = b.comps.collider.unwrap();
    let aw = (ca.width as u64 / 2) as i64;
    let ah = (ca.height as u64 / 2) as i64;
    let bw = (cb.width as u64 / 2) as i64;
    let bh = (cb.height as u64 / 2) as i64;
    let al = pa.x - aw;
    let at = pa.y - ah;
    let bl = pb.x - bw;
    let bt = pb.y - bh;
    al <= bl + cb.width && al + ca.width >= bl && at <= bt + cb.height && at + ca.height >= bt
}

/// Collision pass: scans ordered pairs of distinct entities that carry
/// a position and a collider; on the first overlap it queues a despawn
/// of every entity with a position and a collider and stops. The queue
/// is untouched when nothing overlaps.
pub fn handle_collide(store: &Store, cmd: &mut CommandBuffer)
    requires
        store.wf(),
        positions_within(store.ents@, POS_BOUND as int + POS_STEP_MAX as int),
    ensures
        final(cmd).despawns@ == if collision_exists(store.ents@) {
            old(cmd).despawns@ + ids_where(store.ents@, |r: Ent| has_box(r))
        } else {
            old(cmd).despawns@
        },
{
    let ghost s = store.ents@;
    let n = store.ents.len();
    let mut i: usize = 0;
    while i < n
        invariant
            0 <= i <= n,
            s == store.ents@,
            n == s.len(),
            store.wf(),
            positions_within(s, POS_BOUND as int + POS_STEP_MAX as int),
            cmd.despawns@ == old(cmd).despawns@,
            forall|a: int, b: int|
                0 <= a < i && 0 <= b < n && a != b && has_box(s[a]) && has_box(s[b])
                    ==> !rects_overlap(s[a], s[b]),
        decreases n - i,
    {
        let ra = store.ents[i];
        if ra.comps.position.is_some() && ra.comps.collider.is_some() {
            let mut j: usize = 0;
            while j < n
                invariant
                    0 <= j <= n,
                    0 <= i < n,
                    s == store.ents@,
                    n == s.len(),
                    ra == s[i as int],
                    has_box(ra),
                    store.wf(),
                    positions_within(s, POS_BOUND as int + POS_STEP_MAX as int),
                    cmd.despawns@ == old(cmd).despawns@,
                    forall|b: int|
                        0 <= b < j && (i as int) != b && has_box(s[b]) ==> !rects_overlap(
                            s[i as int],
                            s[b],
                        ),
                decreases n - j,
            {
                if j != i {
                    let rb = store.ents[j];
                    if rb.comps.position.is_some() && rb.comps.collider.is_some() {
                        if boxes_overlap(ra, rb) {
                            proof {
                                assert(collision_exists(s));
                            }
                            let mut k: usize = 0;
                            while k < n
                                invariant
                                    0 <= k <= n,
                                    s == store.ents@,
                                    n == s.len(),
                                    collision_exists(s),
                                    cmd.despawns@ == old(cmd).despawns@ + ids_where(
                                        s.take(k as int),
                                        |r: Ent| has_box(r),
                                    ),
                                decreases n - k,
                            {
                                let rc = store.ents[k];
                                proof {
                                    lemma_ids_where_step(s, |r: Ent| has_box(r), k as int);
                                }
                                if rc.comps.position.is_some() && rc.comps.collider.is_some() {
                                    cmd.queue_despawn(Entity { id: rc.id });
                                }
                                k = k + 1;
                            }
                            proof {
                                assert(s.take(n as int) =~= s);
                            }
                            return ;
                        }
                    }
                }
                j = j + 1;
            }
        }
        i = i + 1;
    }
    proof {
        assert(!collision_exists(s));
    }
}

/// Whether the key is among those that are down this frame.
fn key_is_down(pressed: &Vec<u32>, key: u32) -> (r: bool)
    ensures
        r == pressed@.contains(key),
{
    let n = pressed.len();
    let mut i: usize = 0;
    while i < n
        invariant
            0 <= i <= n,
            n == pressed@.len(),
            forall|k: int| 0 <= k < i ==> pressed@[k] != key,
        decreases n - i,
    {
        if pressed[i] == key {
            return true;
        }
        i = i + 1;
    }
    false
}

/// Flap pass: every entity with a velocity and a flap control whose
/// trigger key is down loses its impulse of vertical speed, clamped to
/// `[-MAX_SPEED, MAX_SPEED]`.
pub fn handle_flap(store: &mut Store, pressed: &Vec<u32>)
    requires
        old(store).wf(),
    ensures
        final(store).wf(),
        final(store).next_id == old(store).next_id,
        final(store).ents@ == flap_map(old(store).ents@, pressed@),
{
    let ghost orig = store.ents@;
    let n = store.ents.len();
    let mut i: usize = 0;
    while i < n
        invariant
            0 <= i <= n,
            orig == old(store).ents@,
            n == store.ents@.len(),
            store.ents@.len() == orig.len(),
            store.next_id == old(store).next_id,
            store.wf(),
            forall|k: int| 0 <= k < i ==> store.ents@[k] == flap_step(orig[k], pressed@),
            forall|k: int| i <= k < n ==> store.ents@[k] == orig[k],
        decreases n - i,
    {
        let r = store.ents[i];
        if r.comps.velocity.is_some() && r.comps.flap.is_some() {
            let f = r.comps.flap.unwrap();
            if key_is_down(pressed, f.key) {
                let v = r.comps.velocity.unwrap();
                let vy = clamp_i64(v.y - f.velocity_sub, -MAX_SPEED, MAX_SPEED);
                store.ents.set(
                    i,
                    Ent {
                        comps: Components { velocity: Some(Velocity { x: v.x, y: vy }), ..r.comps },
                        ..r
                    },
                );
            }
        }
        i = i + 1;
    }
    proof {
        assert(store.ents@ =~= flap_map(orig, pressed@));
    }
}

/// Lifecycle pass: queues a despawn of every entity with a position, a
/// collider and the despawn tag whose center is past the left edge by
/// over half its width, or past the bottom edge by over half its
/// height.
pub fn despawn_out_of_bounds_system(store: &Store, cmd: &mut CommandBuffer, screen_height: i64)
    requires
        store.wf(),
        0 <= screen_height <= SCREEN_LIMIT,
        positions_within(store.ents@, POS_BOUND as int + POS_STEP_MAX as int),
    ensures
        final(cmd).despawns@ == old(cmd).despawns@ + ids_where(
            store.ents@,
            |r: Ent| out_of_bounds(r, screen_height),
        ),
{
    let ghost s = store.ents@;
    let n = store.ents.len();
    let mut i: usize = 0;
    while i < n
        invariant
            0 <= i <= n,
            s == store.ents@,
            n == s.len(),
            store.wf(),
            0 <= screen_height <= SCREEN_LIMIT,
            positions_within(s, POS_BOUND as int + POS_STEP_MAX as int),
            cmd.despawns@ == old(cmd).despawns@ + ids_where(
                s.take(i as int),
                |r: Ent| out_of_bounds(r, screen_height),
            ),
        decreases n - i,
    {
        let r = store.ents[i];
        proof {
            lemma_ids_where_step(s, |r: Ent| out_of_bounds(r, screen_height), i as int);
        }
        if r.comps.position.is_some() && r.comps.collider.is_some()
            && r.comps.die_when_out_of_screen.is_some() {
            let p = r.comps.position.unwrap();
            let c = r.comps.collider.unwrap();
            let hw = (c.width as u64 / 2) as i64;
            let hh = (c.height as u64 / 2) as i64;
            if p.x < -hw || p.y > screen_height + hh {
                cmd.queue_despawn(Entity { id: r.id });
            }
        }
        i = i + 1;
    }
    proof {
        assert(s.take(n as int) =~= s);
    }
}

/// One scheduler pass in the fixed order gravity, position
/// integration, collision, flap input, lifecycle despawn; the command
/// buffer is flushed after the collision scan and after the lifecycle
/// scan, so a later stage never sees a despawned entity.
pub fn run_frame(store: &mut Store, dt: i64, pressed: &Vec<u32>, screen_height: i64)
    requires
        old(store).wf(),
        0 <= dt <= DT_LIMIT,
        0 <= screen_height <= SCREEN_LIMIT,
        positions_within(old(store).ents@, POS_BOUND as int),
    ensures
        final(store).wf(),
        final(store).next_id == old(store).next_id,
        final(store).ents@ == frame_spec(old(store).ents@, dt, pressed@, screen_height),
        positions_within(final(store).ents@, POS_BOUND as int + POS_STEP_MAX as int),
{
    let ghost s0 = store.ents@;
    update_velocity_by_gravity(store, dt);
    proof {
        let s1 = store.ents@;
        assert forall|i: int| 0 <= i < s1.len() implies pos_within(
            #[trigger] s1[i],
            POS_BOUND as int,
        ) by {
            assert(pos_within(s0[i], POS_BOUND as int));
        }
    }
    update_position_by_velocity(store, dt);
    let ghost s2 = store.ents@;
    let mut cmd = CommandBuffer::new();
    handle_collide(store, &mut cmd);
    cmd.apply(store);
    proof {
        let hb = |r: Ent| has_box(r);
        if collision_exists(s2) {
            assert(cmd_filter_bridge(s2, store.ents@, Seq::<u64>::empty() + ids_where(s2, hb)));
            lemma_ids_where_contains(s2, hb);
            assert forall|i: int| 0 <= i < s2.len() implies (!(Seq::<u64>::empty() + ids_where(
                s2,
                hb,
            )).contains(s2[i].id)) == !has_box(s2[i]) by {
                assert(Seq::<u64>::empty() + ids_where(s2, hb) =~= ids_where(s2, hb));
                if has_box(s2[i]) {
                    assert(ids_where(s2, hb).contains(s2[i].id));
                } else {
                    if ids_where(s2, hb).contains(s2[i].id) {
                        let k = choose|k: int|
                            0 <= k < s2.len() && s2[k].id == s2[i].id && hb(s2[k]);
                        assert(false);
                    }
                }
            }
            lemma_filter_agree(
                s2,
                |r: Ent| !(Seq::<u64>::empty() + ids_where(s2, hb)).contains(r.id),
                |r: Ent| !has_box(r),
            );
        } else {
            lemma_filter_all_true(s2, |r: Ent| !(Seq::<u64>::empty()).contains(r.id));
        }
        assert(store.ents@ == collide_apply(s2));
    }
    handle_flap(store, pressed);
    let ghost s4 = store.ents@;
    proof {
        let b = POS_BOUND as int + POS_STEP_MAX as int;
        let s3 = collide_apply(s2);
        lemma_filter_contains(s2, |r: Ent| !has_box(r));
        assert forall|i: int| 0 <= i < s4.len() implies pos_within(#[trigger] s4[i], b) by {
            assert(s4[i] == flap_step(s3[i], pressed@));
            if collision_exists(s2) {
                assert(s3.contains(s3[i]));
                let k = choose|k: int| 0 <= k < s2.len() && s2[k] == s3[i];
                assert(pos_within(s2[k], b));
            } else {
                assert(pos_within(s2[i], b));
            }
        }
    }
    despawn_out_of_bounds_system(store, &mut cmd, screen_height);
    cmd.apply(store);
    proof {
        let ob = |r: Ent| out_of_bounds(r, screen_height);
        lemma_ids_where_contains(s4, ob);
        assert forall|i: int| 0 <= i < s4.len() implies (!(Seq::<u64>::empty() + ids_where(
            s4,
            ob,
        )).contains(s4[i].id)) == !out_of_bounds(s4[i], screen_height) by {
            assert(Seq::<u64>::empty() + ids_where(s4, ob) =~= ids_where(s4, ob));
            if ob(s4[i]) {
                assert(ids_where(s4, ob).contains(s4[i].id));
            } else {
                if ids_where(s4, ob).contains(s4[i].id) {
                    let k = choose|k: int| 0 <= k < s4.len() && s4[k].id == s4[i].id && ob(s4[k]);
                    assert(false);
                }
            }
        }
        lemma_filter_agree(
            s4,
            |r: Ent| !(Seq::<u64>::empty() + ids_where(s4, ob)).contains(r.id),
            |r: Ent| !ob(r),
        );
        lemma_filter_agree(s4, |r: Ent| !ob(r), |r: Ent| !out_of_bounds(r, screen_height));
        assert(store.ents@ == lifecycle_apply(s4, screen_height));
        assert(store.ents@ == frame_spec(s0, dt, pressed@, screen_height));
        let b = POS_BOUND as int + POS_STEP_MAX as int;
        lemma_filter_contains(s4, |r: Ent| !out_of_bounds(r, screen_height));
        assert forall|i: int| 0 <= i < store.ents@.len() implies pos_within(
            #[trigger] store.ents@[i],
            b,
        ) by {
            assert(store.ents@.contains(store.ents@[i]));
            assert(s4.contains(store.ents@[i]));
            let k = choose|k: int| 0 <= k < s4.len() && s4[k] == store.ents@[i];
            assert(pos_within(s4[k], b));
        }
    }
}

/// Helper used only to trigger the uniqueness argument in the
/// collision flush: the flushed store is the scan's filter.
spec fn cmd_filter_bridge(before: Seq<Ent>, after: Seq<Ent>, ids: Seq<u64>) -> bool {
    after == before.filter(|r: Ent| !ids.contains(r.id))
}

/// On any overlap of two distinct entities, the collision pass
/// despawns every entity that carries a position and a collider —
/// related to the overlap or not — and with them the player, which
/// carries both.
pub proof fn lemma_collision_clears_store(s: Seq<Ent>, bird_id: u64)
    requires
        unique_ids(s),
        collision_exists(s),
        exists|i: int| 0 <= i < s.len() && #[trigger] s[i].id == bird_id && has_box(s[i]),
    ensures
        forall|i: int|
            0 <= i < collide_apply(s).len() ==> !has_box(#[trigger] collide_apply(s)[i]),
        !has_live(collide_apply(s), bird_id),
{
    let fin = collide_apply(s);
    assert forall|i: int| 0 <= i < fin.len() implies !has_box(#[trigger] fin[i]) by {
        s.lemma_filter_pred(|r: Ent| !has_box(r), i);
    }
    if has_live(fin, bird_id) {
        let j = choose|j: int| 0 <= j < fin.len() && fin[j].id == bird_id;
        lemma_filter_contains(s, |r: Ent| !has_box(r));
        assert(fin.contains(fin[j]));
        assert(s.contains(fin[j]));
        let k = choose|k: int| 0 <= k < s.len() && s[k] == fin[j];
        let ib = choose|i: int| 0 <= i < s.len() && #[trigger] s[i].id == bird_id && has_box(s[i]);
        assert(k == ib);
        assert(false);
    }
}

/// The sprite/position pairs of the store, in store order: what the
/// renderer consumes each frame.
pub open spec fn render_pairs_spec(s: Seq<Ent>) -> Seq<(TextureRender, Position)>
    decreases s.len(),
{
    if s.len() == 0 {
        Seq::empty()
    } else {
        let rest = render_pairs_spec(s.drop_last());
        if s.last().comps.render is Some && s.last().comps.position is Some {
            rest.push((s.last().comps.render->0, s.last().comps.position->0))
        } else {
            rest
        }
    }
}

/// Collects the sprite/position pairs for the renderer; reads the
/// store and mutates nothing.
pub fn render_pairs(store: &Store) -> (v: Vec<(TextureRender, Position)>)
    ensures
        v@ == render_pairs_spec(store.ents@),
{
    let mut v: Vec<(TextureRender, Position)> = Vec::new();
    let n = store.ents.len();
    let mut i: usize = 0;
    while i < n
        invariant
            0 <= i <= n,
            n == store.ents@.len(),
            v@ == render_pairs_spec(store.ents@.take(i as int)),
        decreases n - i,
    {
        let r = store.ents[i];
        proof {
            lemma_take_push(store.ents@, i as int);
            let t = store.ents@.take(i as int + 1);
            assert(t.drop_last() == store.ents@.take(i as int));
            assert(t.last() == store.ents@[i as int]);
        }
        if r.comps.render.is_some() && r.comps.position.is_some() {
            v.push((r.comps.render.unwrap(), r.comps.position.unwrap()));
        }
        i = i + 1;
    }
    proof {
        assert(store.ents@.take(n as int) =~= store.ents@);
    }
    v
}

/// Whether every stored position lies within the coordinate bound the
/// physics assumes at the start of a frame.
pub fn positions_in_bounds(store: &Store) -> (r: bool)
    ensures
        r == positions_within(store.ents@, POS_BOUND as int),
{
    let n = store.ents.len();
    let mut i: usize = 0;
    while i < n
        invariant
            0 <= i <= n,
            n == store.ents@.len(),
            forall|k: int| 0 <= k < i ==> pos_within(#[trigger] store.ents@[k], POS_BOUND as int),
        decreases n - i,
    {
        let r = store.ents[i];
        if r.comps.position.is_some() {
            let p = r.comps.position.unwrap();
            if p.x < -POS_BOUND || p.x > POS_BOUND || p.y < -POS_BOUND || p.y > POS_BOUND {
                return false;
            }
        }
        i = i + 1;
    }
    true
}

} // verus!
