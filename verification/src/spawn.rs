//! The Spawn Sampler: one-shot placement of rooms before any tick runs.
//!
//! Positions are drawn uniformly over the area of a disk of radius `R`
//! around the origin by polar sampling: the distance from the center is
//! `R * sqrt(u)` for a unit draw `u` — the square root makes the density
//! uniform per area, not per radius. Sizes are drawn uniformly per axis
//! from the configured side bounds. The caller supplies the angle of each
//! position as a unit direction vector; the distance and the sides are
//! drawn and combined here. Every room starts at rest.

use vstd::prelude::*;
use crate::components::{Room, Position, Size, Vec2};
use crate::config::SpawnCfg;
use crate::fixed::{
    abs_i, div_t, fmul_s, sqrt_i, SCALE, LIM, div_i128, isqrt_u128, lemma_div_t_bound,
    lemma_div_t_lower,
};

verus! {

/// Relies on rand::random: one draw from the thread-local generator.
/// Nothing is promised of which value comes back.
pub assume_specification<T>[ rand::random::<T> ]() -> (r: T)
    where
        rand::distr::StandardUniform: rand::distr::Distribution<T>,
;

/// A fixed-point draw from the unit interval: some value in `[0, SCALE)`.
/// Which value comes back is not specified — every consumer must hold for
/// all of them.
pub fn sample_unit() -> (u: i64)
    ensures
        0 <= u < SCALE,
{
    let raw: u64 = rand::random::<u64>();
    (raw % (SCALE as u64)) as i64
}

/// The distance from the disk center for a unit draw `u`:
/// `radius * sqrt(u / SCALE)` in fixed point.
pub open spec fn radius_of_unit(radius: int, u: int) -> int {
    fmul_s(radius, sqrt_i(u * (SCALE as int)))
}

/// A side length for a unit draw `u`: `min_side + (max_side - min_side) * u`
/// in fixed point, uniform over the configured range.
pub open spec fn side_of_unit(min_side: int, max_side: int, u: int) -> int {
    min_side + fmul_s(max_side - min_side, u)
}

/// Compute the area-uniform distance for a unit draw, exactly as
/// `radius_of_unit` states.
pub fn radius_from_unit(radius: i64, u: i64) -> (r: i64)
    requires
        0 < radius <= LIM,
        0 <= u < SCALE,
    ensures
        r as int == radius_of_unit(radius as int, u as int),
        0 <= r <= radius,
{
    assert(0 <= (u as int) * (SCALE as int) <= 3_600_000_000) by (nonlinear_arith)
        requires
            0 <= u as int,
            (u as int) < SCALE as int,
            SCALE == 60000;
    let n: u128 = (u as u128) * (SCALE as u128);
    let s_u = isqrt_u128(n);
    assert(s_u < SCALE as u128) by (nonlinear_arith)
        requires
            (s_u as int) * (s_u as int) <= (u as int) * (SCALE as int),
            0 <= u as int,
            (u as int) < SCALE as int,
            s_u >= 0,
            SCALE == 60000;
    let s: i64 = s_u as i64;
    assert(abs_i((radius as int) * (s as int)) <= (SCALE as int) * (radius as int))
        by (nonlinear_arith)
        requires
            0 <= s as int,
            (s as int) < SCALE as int,
            0 < radius as int;
    let r128 = div_i128((radius as i128) * (s as i128), SCALE as i128);
    proof {
        lemma_div_t_bound((radius as int) * (s as int), SCALE as int, radius as int);
        lemma_div_t_lower((radius as int) * (s as int), SCALE as int);
        assert((radius as int) * (s as int) >= 0) by (nonlinear_arith)
            requires 0 <= s as int && 0 < radius as int;
    }
    r128 as i64
}

/// Compute a side length for a unit draw, exactly as `side_of_unit` states.
pub fn side_from_unit(min_side: i64, max_side: i64, u: i64) -> (r: i64)
    requires
        0 < min_side <= max_side <= LIM,
        0 <= u < SCALE,
    ensures
        r as int == side_of_unit(min_side as int, max_side as int, u as int),
        min_side <= r <= max_side,
{
    let d: i64 = max_side - min_side;
    assert(abs_i((d as int) * (u as int)) <= (SCALE as int) * (d as int)) by (nonlinear_arith)
        requires
            0 <= d as int,
            0 <= u as int,
            (u as int) < SCALE as int;
    let x128 = div_i128((d as i128) * (u as i128), SCALE as i128);
    proof {
        lemma_div_t_bound((d as int) * (u as int), SCALE as int, d as int);
        lemma_div_t_lower((d as int) * (u as int), SCALE as int);
        assert((d as int) * (u as int) >= 0) by (nonlinear_arith)
            requires 0 <= d as int && 0 <= u as int;
    }
    min_side + (x128 as i64)
}

/// Draw a side length uniformly from the configured bounds.
pub fn sample_side(cfg: &SpawnCfg) -> (r: i64)
    requires
        cfg.wf(),
    ensures
        cfg.min_side <= r <= cfg.max_side,
{
    let u = sample_unit();
    side_from_unit(cfg.min_side, cfg.max_side, u)
}

/// Draw an area-uniform distance from the disk center.
pub fn sample_disk_radius(cfg: &SpawnCfg) -> (r: i64)
    requires
        cfg.wf(),
    ensures
        0 <= r <= cfg.radius,
{
    let u = sample_unit();
    radius_from_unit(cfg.radius, u)
}

/// Spawn one room. The caller supplies the position's direction as a
/// fixed-point unit vector (the angle draw and its trigonometry are the
/// presentation layer's); the distance from the center and both sides are
/// drawn here. The room starts at rest inside the disk.
pub fn spawn_room(dir_x: i64, dir_y: i64, cfg: &SpawnCfg) -> (r: Room)
    requires
        cfg.wf(),
        abs_i(dir_x as int) <= SCALE,
        abs_i(dir_y as int) <= SCALE,
    ensures
        r.velocity.0.is_zero(),
        r.acceleration.0.is_zero(),
        cfg.min_side <= r.size.0.x <= cfg.max_side,
        cfg.min_side <= r.size.0.y <= cfg.max_side,
        abs_i(r.position.0.x as int) <= cfg.radius,
        abs_i(r.position.0.y as int) <= cfg.radius,
        r.wf(),
{
    let dist = sample_disk_radius(cfg);
    assert(abs_i((dir_x as int) * (dist as int)) <= (SCALE as int) * (cfg.radius as int)
        && abs_i((dir_y as int) * (dist as int)) <= (SCALE as int) * (cfg.radius as int))
        by (nonlinear_arith)
        requires
            abs_i(dir_x as int) <= SCALE as int,
            abs_i(dir_y as int) <= SCALE as int,
            0 <= dist as int <= cfg.radius as int,
            SCALE == 60000;
    let px128 = div_i128((dir_x as i128) * (dist as i128), SCALE as i128);
    let py128 = div_i128((dir_y as i128) * (dist as i128), SCALE as i128);
    proof {
        lemma_div_t_bound((dir_x as int) * (dist as int), SCALE as int, cfg.radius as int);
        lemma_div_t_bound((dir_y as int) * (dist as int), SCALE as int, cfg.radius as int);
    }
    let sx = sample_side(cfg);
    let sy = sample_side(cfg);
    Room::new(
        Position(Vec2 { x: px128 as i64, y: py128 as i64 }),
        Size(Vec2 { x: sx, y: sy }),
    )
}

/// Area-uniformity of the polar draw: the squared sampled distance tracks
/// `radius^2 * u / SCALE` to within the fixed-point quantization. So as `u`
/// ranges uniformly over the unit interval, the squared distance ranges
/// uniformly over `[0, radius^2]` — uniform per area, not per radius.
pub proof fn lemma_squared_radius_tracks_unit(radius: int, u: int)
    requires
        0 < radius <= LIM,
        0 <= u < SCALE,
    ensures
        radius_of_unit(radius, u) * radius_of_unit(radius, u) * SCALE <= radius * radius * u,
        (radius_of_unit(radius, u) + 1) * (radius_of_unit(radius, u) + 1) * SCALE > radius * radius
            * (u - 2),
{
    let us = u * (SCALE as int);
    assert(us >= 0) by (nonlinear_arith)
        requires u >= 0 && SCALE == 60000 && us == u * (SCALE as int);
    crate::fixed::lemma_sqrt_exists(us);
    let s = sqrt_i(us);
    assert(s * s <= us && us < (s + 1) * (s + 1) && s >= 0);
    assert(us < (SCALE as int) * (SCALE as int)) by (nonlinear_arith)
        requires
            us == u * (SCALE as int),
            u < SCALE as int,
            SCALE == 60000;
    assert(s < SCALE) by (nonlinear_arith)
        requires
            s * s <= us,
            us < (SCALE as int) * (SCALE as int),
            s >= 0,
        ;
    let r = radius_of_unit(radius, u);
    assert(r == div_t(radius * s, SCALE as int));
    assert(radius * s >= 0) by (nonlinear_arith)
        requires radius > 0 && s >= 0;
    lemma_div_t_lower(radius * s, SCALE as int);
    // upper: r * SCALE <= radius * s, so r^2 * SCALE^2 <= radius^2 * s^2
    //        <= radius^2 * u * SCALE
    assert(r * (SCALE as int) <= radius * s);
    assert(r * r * SCALE <= radius * radius * u) by (nonlinear_arith)
        requires
            r * (SCALE as int) <= radius * s,
            r >= 0,
            s >= 0,
            radius > 0,
            s * s <= u * (SCALE as int),
            0 <= u,
            SCALE == 60000;
    // lower: (r + 1) * SCALE > radius * s and s^2 > u * SCALE - 2 * SCALE
    assert((r + 1) * (SCALE as int) > radius * s);
    assert(s * s > u * (SCALE as int) - 2 * (SCALE as int)) by (nonlinear_arith)
        requires
            u * (SCALE as int) < (s + 1) * (s + 1),
            0 <= s,
            s < SCALE as int,
            SCALE == 60000;
    assert((r + 1) * (r + 1) * SCALE > radius * radius * (u - 2)) by (nonlinear_arith)
        requires
            (r + 1) * (SCALE as int) > radius * s,
            s * s > u * (SCALE as int) - 2 * (SCALE as int),
            r >= 0,
            s >= 0,
            radius > 0,
            SCALE == 60000;
}

} // verus!
