//! The Integrator: advance kinematic state by one fixed timestep.
//!
//! Velocity first, for every room: `v += a * dt`, then `v *= max(1 - drag *
//! dt, 0)` — the factor floors at zero, so a very large `drag * dt` stops a
//! room in one step instead of reversing it. Then position, for every room:
//! `p += v * dt`.

use vstd::prelude::*;
use crate::components::{Room, Velocity, Position};
use crate::config::SeparationCfg;
use crate::fixed::{abs_i, fmul_s, SCALE, LIM, div_i128, lemma_div_t_bound};

verus! {

/// Largest velocity magnitude, per component, that the position integrator
/// accepts without risking machine overflow.
pub const VEL_LIM: i64 = 500_000_000_000_000;

/// Largest velocity magnitude, per component, that the velocity integrator
/// accepts; its result then stays within `VEL_LIM`.
pub const VEL_IN_LIM: i64 = 480_000_000_000_000;

/// The damping factor applied after the acceleration step, in raw units of
/// `1/SCALE`: `max(1 - drag * dt, 0)`.
pub open spec fn drag_factor(drag: int, dt: int) -> int {
    if fmul_s(drag, dt) >= SCALE { 0 } else { SCALE - fmul_s(drag, dt) }
}

/// One velocity component after the velocity step.
pub open spec fn vel_step(v: int, a: int, drag: int, dt: int) -> int {
    fmul_s(v + fmul_s(a, dt), drag_factor(drag, dt))
}

/// One position component after the position step.
pub open spec fn pos_step(p: int, v: int, dt: int) -> int {
    p + fmul_s(v, dt)
}

/// Velocity components within the velocity integrator's input bound and
/// acceleration components within one quantum of the coordinate bound, as
/// the steering clamp leaves them.
pub open spec fn vel_inputs_ok(s: Seq<Room>) -> bool {
    forall|i: int|
        0 <= i < s.len() ==> {
            &&& abs_i((#[trigger] s[i]).velocity.0.x as int) <= VEL_IN_LIM
            &&& abs_i(s[i].velocity.0.y as int) <= VEL_IN_LIM
            &&& abs_i(s[i].acceleration.0.x as int) <= LIM + 1
            &&& abs_i(s[i].acceleration.0.y as int) <= LIM + 1
        }
}

/// What `integrate_acceleration_into_velocity` guarantees of room `i`.
pub open spec fn vel_room_post(s0: Seq<Room>, r1: Room, cfg: SeparationCfg, dt: int, i: int) -> bool {
    &&& r1.position == s0[i].position
    &&& r1.size == s0[i].size
    &&& r1.acceleration == s0[i].acceleration
    &&& r1.velocity.0.x as int == vel_step(
        s0[i].velocity.0.x as int,
        s0[i].acceleration.0.x as int,
        cfg.drag as int,
        dt,
    )
    &&& r1.velocity.0.y as int == vel_step(
        s0[i].velocity.0.y as int,
        s0[i].acceleration.0.y as int,
        cfg.drag as int,
        dt,
    )
    &&& abs_i(r1.velocity.0.x as int) <= VEL_LIM
    &&& abs_i(r1.velocity.0.y as int) <= VEL_LIM
    &&& (fmul_s(cfg.drag as int, dt) >= SCALE ==> r1.velocity.0.is_zero())
}

/// One component of the velocity step, exactly as `vel_step` states.
fn vel_step_i64(v: i64, a: i64, drag: i64, dt: i64) -> (r: i64)
    requires
        abs_i(v as int) <= VEL_IN_LIM,
        abs_i(a as int) <= LIM + 1,
        0 <= drag <= LIM,
        0 <= dt <= LIM,
    ensures
        r as int == vel_step(v as int, a as int, drag as int, dt as int),
        abs_i(r as int) <= VEL_LIM,
        fmul_s(drag as int, dt as int) >= SCALE ==> r == 0,
{
    assert(abs_i((a as int) * (dt as int)) <= 1_000_000_001_000_000_000 && 0 <= (drag as int) * (
    dt as int) <= 1_000_000_000_000_000_000) by (nonlinear_arith)
        requires
            abs_i(a as int) <= (LIM as int) + 1,
            0 <= drag as int <= LIM as int,
            0 <= dt as int <= LIM as int,
            LIM == 1_000_000_000;
    let av = div_i128((a as i128) * (dt as i128), SCALE as i128);
    proof {
        lemma_div_t_bound((a as int) * (dt as int), SCALE as int, 20_000_000_000_000);
    }
    let v1: i128 = (v as i128) + av;
    let fd = div_i128((drag as i128) * (dt as i128), SCALE as i128);
    let factor: i128 = if fd >= SCALE as i128 {
        0
    } else {
        assert(0 <= ((drag as int) * (dt as int)) / (SCALE as int));
        (SCALE as i128) - fd
    };
    assert(abs_i((v1 as int) * (factor as int)) <= (SCALE as int) * (VEL_LIM as int))
        by (nonlinear_arith)
        requires
            abs_i(v1 as int) <= VEL_LIM as int,
            0 <= factor as int <= SCALE as int,
            VEL_LIM == 500_000_000_000_000,
            SCALE == 60000;
    let r128 = div_i128(v1 * factor, SCALE as i128);
    proof {
        lemma_div_t_bound((v1 as int) * (factor as int), SCALE as int, VEL_LIM as int);
    }
    r128 as i64
}

/// Integrate acceleration into velocity, with linear drag, for every room.
pub fn integrate_acceleration_into_velocity(
    rooms: &mut Vec<Room>,
    config: &SeparationCfg,
    dt: i64,
)
    requires
        vel_inputs_ok(old(rooms)@),
        config.wf(),
        0 <= dt <= LIM,
    ensures
        final(rooms)@.len() == old(rooms)@.len(),
        forall|i: int|
            0 <= i < old(rooms)@.len() ==> vel_room_post(
                old(rooms)@,
                #[trigger] final(rooms)@[i],
                *config,
                dt as int,
                i,
            ),
{
    let ghost s0 = rooms@;
    let n = rooms.len();
    let mut k: usize = 0;
    while k < n
        invariant
            n == s0.len(),
            rooms@.len() == n,
            vel_inputs_ok(s0),
            config.wf(),
            0 <= dt <= LIM,
            k <= n,
            forall|t: int| k <= t < n ==> rooms@[t] == s0[t],
            forall|t: int|
                0 <= t < k ==> vel_room_post(s0, #[trigger] rooms@[t], *config, dt as int, t),
        decreases n - k,
    {
        let mut room = rooms[k];
        assert(room == s0[k as int]);
        assert(abs_i(s0[k as int].velocity.0.x as int) <= VEL_IN_LIM);
        let vx = vel_step_i64(room.velocity.0.x, room.acceleration.0.x, config.drag, dt);
        let vy = vel_step_i64(room.velocity.0.y, room.acceleration.0.y, config.drag, dt);
        room.velocity = Velocity(crate::components::Vec2 { x: vx, y: vy });
        rooms.set(k, room);
        k = k + 1;
    }
}

/// Velocity components within the position integrator's input bound.
pub open spec fn pos_inputs_ok(s: Seq<Room>) -> bool {
    forall|i: int|
        0 <= i < s.len() ==> {
            &&& abs_i((#[trigger] s[i]).velocity.0.x as int) <= VEL_LIM
            &&& abs_i(s[i].velocity.0.y as int) <= VEL_LIM
            &&& abs_i(s[i].position.0.x as int) <= LIM
            &&& abs_i(s[i].position.0.y as int) <= LIM
        }
}

/// What `integrate_velocity_into_position` guarantees of room `i`.
pub open spec fn pos_room_post(s0: Seq<Room>, r1: Room, dt: int, i: int) -> bool {
    &&& r1.velocity == s0[i].velocity
    &&& r1.size == s0[i].size
    &&& r1.acceleration == s0[i].acceleration
    &&& r1.position.0.x as int == pos_step(s0[i].position.0.x as int, s0[i].velocity.0.x as int, dt)
    &&& r1.position.0.y as int == pos_step(s0[i].position.0.y as int, s0[i].velocity.0.y as int, dt)
}

/// One component of the position step, exactly as `pos_step` states.
fn pos_step_i64(p: i64, v: i64, dt: i64) -> (r: i64)
    requires
        abs_i(p as int) <= LIM,
        abs_i(v as int) <= VEL_LIM,
        0 <= dt <= LIM,
    ensures
        r as int == pos_step(p as int, v as int, dt as int),
{
    assert(abs_i((v as int) * (dt as int)) <= 500_000_000_000_000_000_000_000) by (nonlinear_arith)
        requires
            abs_i(v as int) <= VEL_LIM as int,
            0 <= dt as int <= LIM as int,
            VEL_LIM == 500_000_000_000_000,
            LIM == 1_000_000_000;
    let dv = div_i128((v as i128) * (dt as i128), SCALE as i128);
    proof {
        lemma_div_t_bound((v as int) * (dt as int), SCALE as int, 8_400_000_000_000_000_000);
    }
    ((p as i128) + dv) as i64
}

/// Integrate velocity into position for every room, after every velocity
/// has been advanced.
pub fn integrate_velocity_into_position(rooms: &mut Vec<Room>, dt: i64)
    requires
        pos_inputs_ok(old(rooms)@),
        0 <= dt <= LIM,
    ensures
        final(rooms)@.len() == old(rooms)@.len(),
        forall|i: int|
            0 <= i < old(rooms)@.len() ==> pos_room_post(
                old(rooms)@,
                #[trigger] final(rooms)@[i],
                dt as int,
                i,
            ),
{
    let ghost s0 = rooms@;
    let n = rooms.len();
    let mut k: usize = 0;
    while k < n
        invariant
            n == s0.len(),
            rooms@.len() == n,
            pos_inputs_ok(s0),
            0 <= dt <= LIM,
            k <= n,
            forall|t: int| k <= t < n ==> rooms@[t] == s0[t],
            forall|t: int| 0 <= t < k ==> pos_room_post(s0, #[trigger] rooms@[t], dt as int, t),
        decreases n - k,
    {
        let mut room = rooms[k];
        assert(room == s0[k as int]);
        assert(abs_i(s0[k as int].velocity.0.x as int) <= VEL_LIM);
        let px = pos_step_i64(room.position.0.x, room.velocity.0.x, dt);
        let py = pos_step_i64(room.position.0.y, room.velocity.0.y, dt);
        room.position = Position(crate::components::Vec2 { x: px, y: py });
        rooms.set(k, room);
        k = k + 1;
    }
}

} // verus!
