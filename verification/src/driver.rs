//! The per-tick pipeline, in its required order: separation forces, then
//! the steering clamp, then velocity integration, then position
//! integration, then the settlement check. The context gathers the
//! read-only force configuration and the settlement latch.

use vstd::prelude::*;
use crate::components::{Room, Velocity, Acceleration, Position, Vec2, rooms_wf, sizes_ok};
use crate::config::SeparationCfg;
use crate::fixed::abs_i;
use crate::integration::{
    integrate_acceleration_into_velocity, integrate_velocity_into_position, vel_step, pos_step,
    vel_inputs_ok, pos_inputs_ok, vel_room_post, pos_room_post, VEL_IN_LIM,
};
use crate::separation::{
    separation_forces, clamp_steering, nbr_count, accel_x, accel_y, clamped_x, clamped_y,
    sep_room_post, clamp_room_post, accels_bounded,
};
use crate::settlement::{report_when_rooms_stopped, settled, SettlementState};

verus! {

/// Room `i` after the Separation Force Computer.
pub open spec fn room_after_sep(s: Seq<Room>, i: int, cfg: SeparationCfg) -> Room {
    if nbr_count(s, i) == 0 {
        Room {
            position: s[i].position,
            velocity: Velocity(Vec2 { x: 0, y: 0 }),
            acceleration: Acceleration(Vec2 { x: 0, y: 0 }),
            size: s[i].size,
        }
    } else {
        Room {
            position: s[i].position,
            velocity: s[i].velocity,
            acceleration: Acceleration(
                Vec2 { x: accel_x(s, i, cfg) as i64, y: accel_y(s, i, cfg) as i64 },
            ),
            size: s[i].size,
        }
    }
}

/// A room after the Steering Clamp.
pub open spec fn room_after_clamp(r: Room, cfg: SeparationCfg) -> Room {
    Room {
        position: r.position,
        velocity: r.velocity,
        acceleration: Acceleration(
            Vec2 {
                x: clamped_x(r.acceleration.0, cfg.max_force as int) as i64,
                y: clamped_y(r.acceleration.0, cfg.max_force as int) as i64,
            },
        ),
        size: r.size,
    }
}

/// A room after the velocity step of the Integrator.
pub open spec fn room_after_vel(r: Room, cfg: SeparationCfg, dt: int) -> Room {
    Room {
        position: r.position,
        velocity: Velocity(
            Vec2 {
                x: vel_step(
                    r.velocity.0.x as int,
                    r.acceleration.0.x as int,
                    cfg.drag as int,
                    dt,
                ) as i64,
                y: vel_step(
                    r.velocity.0.y as int,
                    r.acceleration.0.y as int,
                    cfg.drag as int,
                    dt,
                ) as i64,
            },
        ),
        acceleration: r.acceleration,
        size: r.size,
    }
}

/// A room after the position step of the Integrator.
pub open spec fn room_after_pos(r: Room, dt: int) -> Room {
    Room {
        position: Position(
            Vec2 {
                x: pos_step(r.position.0.x as int, r.velocity.0.x as int, dt) as i64,
                y: pos_step(r.position.0.y as int, r.velocity.0.y as int, dt) as i64,
            },
        ),
        velocity: r.velocity,
        acceleration: r.acceleration,
        size: r.size,
    }
}

/// Room `i` after one whole tick of the pipeline.
pub open spec fn room_after_tick(s: Seq<Room>, i: int, cfg: SeparationCfg, dt: int) -> Room {
    room_after_pos(room_after_vel(room_after_clamp(room_after_sep(s, i, cfg), cfg), cfg, dt), dt)
}

/// The whole store after one tick.
pub open spec fn rooms_after_tick(s: Seq<Room>, cfg: SeparationCfg, dt: int) -> Seq<Room> {
    Seq::new(s.len(), |i: int| room_after_tick(s, i, cfg, dt))
}

/// The force configuration and the settlement latch, threaded through every
/// tick by the driver.
#[derive(Clone, Copy, PartialEq, Eq, Structural, Debug)]
pub struct SimulationContext {
    pub config: SeparationCfg,
    pub settlement: SettlementState,
}

impl SimulationContext {
    pub fn new(config: SeparationCfg) -> (r: SimulationContext)
        ensures
            r.config == config,
            !r.settlement.reported,
    {
        SimulationContext { config, settlement: SettlementState { reported: false } }
    }
}

/// Velocity components within the velocity integrator's input bound.
pub open spec fn vels_in_bound(s: Seq<Room>) -> bool {
    forall|i: int|
        0 <= i < s.len() ==> abs_i((#[trigger] s[i]).velocity.0.x as int) <= VEL_IN_LIM && abs_i(
            s[i].velocity.0.y as int,
        ) <= VEL_IN_LIM
}

/// Runtime check of `vels_in_bound`, for callers outside verified code.
pub fn vels_are_in_bound(rooms: &Vec<Room>) -> (r: bool)
    ensures
        r == vels_in_bound(rooms@),
{
    let mut k: usize = 0;
    while k < rooms.len()
        invariant
            0 <= k <= rooms@.len(),
            forall|i: int|
                0 <= i < k ==> abs_i((#[trigger] rooms@[i]).velocity.0.x as int) <= VEL_IN_LIM
                    && abs_i(rooms@[i].velocity.0.y as int) <= VEL_IN_LIM,
        decreases rooms@.len() - k,
    {
        let v = rooms[k].velocity.0;
        if !(-VEL_IN_LIM <= v.x && v.x <= VEL_IN_LIM && -VEL_IN_LIM <= v.y && v.y
            <= VEL_IN_LIM) {
            return false;
        }
        k = k + 1;
    }
    true
}

/// One full simulation tick. Returns whether the one-time settlement
/// notification fires this tick.
pub fn simulation_tick(rooms: &mut Vec<Room>, ctx: &mut SimulationContext, dt: i64) -> (fired:
    bool)
    requires
        rooms_wf(old(rooms)@),
        vels_in_bound(old(rooms)@),
        old(ctx).config.wf(),
        0 <= dt <= crate::fixed::LIM,
    ensures
        final(ctx).config == old(ctx).config,
        final(rooms)@ == rooms_after_tick(old(rooms)@, old(ctx).config, dt as int),
        final(ctx).settlement.reported == (old(ctx).settlement.reported || settled(
            final(rooms)@,
        )),
        fired == (!old(ctx).settlement.reported && settled(final(rooms)@)),
{
    let ghost s0 = rooms@;
    let ghost cfg = ctx.config;
    let config = ctx.config;
    separation_forces(rooms, &config);
    let ghost s1 = rooms@;
    proof {
        assert forall|i: int| 0 <= i < s1.len() implies #[trigger] s1[i] == room_after_sep(
            s0,
            i,
            cfg,
        ) by {
            assert(sep_room_post(s0, s1[i], cfg, i));
            if nbr_count(s0, i) == 0 {
                assert(s1[i].velocity.0.x == 0 && s1[i].velocity.0.y == 0);
                assert(s1[i].velocity == Velocity(Vec2 { x: 0, y: 0 }));
                assert(s1[i].acceleration == Acceleration(Vec2 { x: 0, y: 0 }));
            } else {
                crate::separation::lemma_nbr_count_nonneg(s0, i, s0.len() as int);
                assert(nbr_count(s0, i) > 0);
                let vx = s1[i].acceleration.0.x;
                let vy = s1[i].acceleration.0.y;
                assert(vx as int == accel_x(s0, i, cfg) && vy as int == accel_y(s0, i, cfg));
                assert(i64::MIN as int <= vx as int <= i64::MAX as int);
                assert(i64::MIN as int <= vy as int <= i64::MAX as int);
                assert(s1[i].acceleration.0.x == accel_x(s0, i, cfg) as i64);
                assert(s1[i].acceleration.0.y == accel_y(s0, i, cfg) as i64);
                assert(s1[i].acceleration == Acceleration(
                    Vec2 { x: accel_x(s0, i, cfg) as i64, y: accel_y(s0, i, cfg) as i64 },
                ));
            }
        }
        assert(accels_bounded(s1));
        assert forall|i: int|
            0 <= i < s1.len() implies abs_i((#[trigger] s1[i]).velocity.0.x as int) <= VEL_IN_LIM
            && abs_i(s1[i].velocity.0.y as int) <= VEL_IN_LIM by {
            assert(sep_room_post(s0, s1[i], cfg, i));
            assert(abs_i(s0[i].velocity.0.x as int) <= VEL_IN_LIM);
        }
    }
    clamp_steering(rooms, &config);
    let ghost s2 = rooms@;
    proof {
        assert forall|i: int| 0 <= i < s2.len() implies #[trigger] s2[i] == room_after_clamp(
            s1[i],
            cfg,
        ) by {
            assert(clamp_room_post(s1, s2[i], cfg, i));
        }
        assert(vel_inputs_ok(s2)) by {
            assert forall|i: int|
                0 <= i < s2.len() implies abs_i((#[trigger] s2[i]).velocity.0.x as int)
                <= VEL_IN_LIM && abs_i(s2[i].velocity.0.y as int) <= VEL_IN_LIM && abs_i(
                s2[i].acceleration.0.x as int,
            ) <= crate::fixed::LIM + 1 && abs_i(s2[i].acceleration.0.y as int) <= crate::fixed::LIM
                + 1 by {
                assert(clamp_room_post(s1, s2[i], cfg, i));
            }
        }
    }
    integrate_acceleration_into_velocity(rooms, &config, dt);
    let ghost s3 = rooms@;
    proof {
        assert forall|i: int| 0 <= i < s3.len() implies #[trigger] s3[i] == room_after_vel(
            s2[i],
            cfg,
            dt as int,
        ) by {
            assert(vel_room_post(s2, s3[i], cfg, dt as int, i));
        }
        assert(pos_inputs_ok(s3)) by {
            assert forall|i: int|
                0 <= i < s3.len() implies abs_i((#[trigger] s3[i]).velocity.0.x as int)
                <= crate::integration::VEL_LIM && abs_i(s3[i].velocity.0.y as int)
                <= crate::integration::VEL_LIM && abs_i(s3[i].position.0.x as int)
                <= crate::fixed::LIM && abs_i(s3[i].position.0.y as int) <= crate::fixed::LIM by {
                assert(vel_room_post(s2, s3[i], cfg, dt as int, i));
                assert(s0[i].wf());
            }
        }
    }
    integrate_velocity_into_position(rooms, dt);
    let ghost s4 = rooms@;
    proof {
        assert forall|i: int| 0 <= i < s4.len() implies #[trigger] s4[i] == room_after_pos(
            s3[i],
            dt as int,
        ) by {
            assert(pos_room_post(s3, s4[i], dt as int, i));
        }
        assert forall|i: int| 0 <= i < s4.len() implies (#[trigger] s4[i]).size_ok() by {
            assert(s0[i].wf());
        }
        assert(sizes_ok(s4));
        assert(s4 =~= rooms_after_tick(s0, cfg, dt as int));
    }
    let fired = report_when_rooms_stopped(&mut ctx.settlement, rooms);
    fired
}

} // verus!
